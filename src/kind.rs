//! Kinds of items stored in a bank and the rules that classify a file name.

use vstd::prelude::*;
use vstd::slice::slice_subrange;
use vstd::string::is_ascii;

verus! {

/// Types of files supported in banks, in the order they appear in a bank.
#[derive(Clone, Copy, Debug, PartialEq, Eq, Structural, Hash, PartialOrd, Ord)]
pub enum ItemKind {
    Background,
    Metadata,
    Sample,
    MultipassPreset,
    PhasePlantPreset,
    SnapHeapPreset,
    ThreeBandEq,
    Bitcrush,
    CarveEq,
    Chorus,
    CombFilter,
    Compressor,
    Convolver,
    Delay,
    Disperser,
    Distortion,
    Dynamics,
    Ensemble,
    Faturator,
    Filter,
    Flanger,
    FormatFilter,
    FrequencyShifter,
    Gain,
    Gate,
    Haas,
    LadderFilter,
    Limiter,
    NonlinearFilter,
    PhaseDistortion,
    Phaser,
    PitchShifter,
    Resonator,
    Reverb,
    Reverser,
    RingMod,
    SliceEq,
    Stereo,
    TapeStop,
    TranceGate,
    TransientShaper,
}

/// File name extensions accepted for each kind, without the leading dot.
pub open spec fn spec_extensions(kind: ItemKind) -> Seq<Seq<char>> {
    match kind {
        ItemKind::Background => seq![seq!['j', 'p', 'g'], seq!['p', 'n', 'g']],
        ItemKind::Metadata => seq![seq!['j', 's', 'o', 'n']],
        ItemKind::Sample => seq![seq!['f', 'l', 'a', 'c'], seq!['m', 'p', '3'], seq!['w', 'a', 'v']],
        ItemKind::MultipassPreset => seq![seq!['m', 'u', 'l', 't', 'i', 'p', 'a', 's', 's']],
        ItemKind::PhasePlantPreset => seq![seq!['p', 'h', 'a', 's', 'e', 'p', 'l', 'a', 'n', 't']],
        ItemKind::SnapHeapPreset => seq![seq!['s', 'n', 'a', 'p', 'h', 'e', 'a', 'p']],
        ItemKind::ThreeBandEq => seq![seq!['k', 's', 'q', 'e']],
        ItemKind::Bitcrush => seq![seq!['k', 's', 'b', 'c']],
        ItemKind::CarveEq => seq![seq!['k', 's', 'g', 'e']],
        ItemKind::Chorus => seq![seq!['k', 's', 'c', 'h']],
        ItemKind::CombFilter => seq![seq!['k', 's', 'c', 'f']],
        ItemKind::Compressor => seq![seq!['k', 's', 'c', 'p']],
        ItemKind::Convolver => seq![seq!['k', 's', 'c', 'o']],
        ItemKind::Delay => seq![seq!['k', 's', 'd', 'l']],
        ItemKind::Disperser => seq![seq!['k', 'd', 's', 'p']],
        ItemKind::Distortion => seq![seq!['k', 's', 'd', 't']],
        ItemKind::Dynamics => seq![seq!['k', 's', 'o', 't']],
        ItemKind::Ensemble => seq![seq!['k', 's', 'u', 'n']],
        ItemKind::Faturator => seq![seq!['k', 'f', 'a', 't']],
        ItemKind::Filter => seq![seq!['k', 's', 'f', 'i']],
        ItemKind::Flanger => seq![seq!['k', 's', 'f', 'l']],
        ItemKind::FormatFilter => seq![seq!['k', 's', 'v', 'f']],
        ItemKind::FrequencyShifter => seq![seq!['k', 's', 'f', 's']],
        ItemKind::Gain => seq![seq!['k', 's', 'g', 'n']],
        ItemKind::Gate => seq![seq!['k', 's', 'g', 't']],
        ItemKind::Haas => seq![seq!['k', 's', 'h', 'a']],
        ItemKind::LadderFilter => seq![seq!['k', 's', 'l', 'a']],
        ItemKind::Limiter => seq![seq!['k', 's', 'l', 't']],
        ItemKind::NonlinearFilter => seq![seq!['k', 's', 'd', 'f']],
        ItemKind::PhaseDistortion => seq![seq!['k', 's', 'p', 'd']],
        ItemKind::Phaser => seq![seq!['k', 's', 'p', 'h']],
        ItemKind::PitchShifter => seq![seq!['k', 's', 'p', 's']],
        ItemKind::Resonator => seq![seq!['k', 's', 'r', 'e']],
        ItemKind::Reverb => seq![seq!['k', 's', 'r', 'v']],
        ItemKind::Reverser => seq![seq!['k', 's', 'r', 'r']],
        ItemKind::RingMod => seq![seq!['k', 's', 'r', 'm']],
        ItemKind::SliceEq => seq![seq!['k', 'p', 'e', 'q']],
        ItemKind::Stereo => seq![seq!['k', 's', 's', 't']],
        ItemKind::TapeStop => seq![seq!['k', 's', 't', 's']],
        ItemKind::TranceGate => seq![seq!['k', 's', 't', 'g']],
        ItemKind::TransientShaper => seq![seq!['k', 's', 't', 'r']],
    }
}

/// Every kind, in the order of the enumeration.
pub open spec fn all_kinds() -> Seq<ItemKind> {
    seq![
        ItemKind::Background,
        ItemKind::Metadata,
        ItemKind::Sample,
        ItemKind::MultipassPreset,
        ItemKind::PhasePlantPreset,
        ItemKind::SnapHeapPreset,
        ItemKind::ThreeBandEq,
        ItemKind::Bitcrush,
        ItemKind::CarveEq,
        ItemKind::Chorus,
        ItemKind::CombFilter,
        ItemKind::Compressor,
        ItemKind::Convolver,
        ItemKind::Delay,
        ItemKind::Disperser,
        ItemKind::Distortion,
        ItemKind::Dynamics,
        ItemKind::Ensemble,
        ItemKind::Faturator,
        ItemKind::Filter,
        ItemKind::Flanger,
        ItemKind::FormatFilter,
        ItemKind::FrequencyShifter,
        ItemKind::Gain,
        ItemKind::Gate,
        ItemKind::Haas,
        ItemKind::LadderFilter,
        ItemKind::Limiter,
        ItemKind::NonlinearFilter,
        ItemKind::PhaseDistortion,
        ItemKind::Phaser,
        ItemKind::PitchShifter,
        ItemKind::Resonator,
        ItemKind::Reverb,
        ItemKind::Reverser,
        ItemKind::RingMod,
        ItemKind::SliceEq,
        ItemKind::Stereo,
        ItemKind::TapeStop,
        ItemKind::TranceGate,
        ItemKind::TransientShaper,
    ]
}

/// The directory that holds files of a kind inside a bank: none for the
/// background and the metadata, else the first extension of the kind.
pub open spec fn spec_directory(kind: ItemKind) -> Option<Seq<char>> {
    match kind {
        ItemKind::Background | ItemKind::Metadata => None,
        _ => Some(spec_extensions(kind)[0]),
    }
}

/// The bytes of a text made of ASCII characters only.
pub open spec fn ascii_bytes(s: Seq<char>) -> Seq<u8> {
    s.map_values(|c: char| c as u8)
}

/// ASCII lower case of a byte; other bytes are unchanged.
pub open spec fn lower_byte(b: u8) -> u8 {
    if 65 <= b <= 90 {
        (b + 32) as u8
    } else {
        b
    }
}

/// Two byte strings are equal when ASCII letters are compared without case.
pub open spec fn eq_ignore_case(a: Seq<u8>, b: Seq<u8>) -> bool {
    &&& a.len() == b.len()
    &&& forall|i: int| 0 <= i < a.len() ==> lower_byte(#[trigger] a[i]) == lower_byte(b[i])
}

/// Whether one of the kind's extensions equals `ext` without regard to case.
pub open spec fn kind_has_extension(kind: ItemKind, ext: Seq<u8>) -> bool {
    exists|i: int|
        0 <= i < spec_extensions(kind).len() && eq_ignore_case(
            ascii_bytes(#[trigger] spec_extensions(kind)[i]),
            ext,
        )
}

/// The first kind of `kinds` that accepts the extension.
pub open spec fn first_kind_with_extension(kinds: Seq<ItemKind>, ext: Seq<u8>) -> Option<ItemKind>
    decreases kinds.len(),
{
    if kinds.len() == 0 {
        None
    } else if kind_has_extension(kinds[0], ext) {
        Some(kinds[0])
    } else {
        first_kind_with_extension(kinds.drop_first(), ext)
    }
}

/// Index of the last byte of `s` equal to `b` before position `end`, or -1.
pub open spec fn last_index_of(s: Seq<u8>, b: u8, end: int) -> int
    decreases end,
{
    if end <= 0 {
        -1
    } else if s[end - 1] == b {
        end - 1
    } else {
        last_index_of(s, b, end - 1)
    }
}

/// The index found by `last_index_of` lies before `end`, and holds `b`.
pub proof fn lemma_last_index_of_bounds(s: Seq<u8>, b: u8, end: int)
    requires
        0 <= end <= s.len(),
    ensures
        -1 <= last_index_of(s, b, end) < end,
        last_index_of(s, b, end) >= 0 ==> s[last_index_of(s, b, end)] == b,
    decreases end,
{
    if end > 0 && s[end - 1] != b {
        lemma_last_index_of_bounds(s, b, end - 1);
    }
}

/// The last component of a path whose components are separated by `/`.
pub open spec fn spec_file_name(path: Seq<u8>) -> Seq<u8> {
    path.subrange(last_index_of(path, 47, path.len() as int) + 1, path.len() as int)
}

/// The position of the dot that starts the extension of a file name, if the
/// name has one: a dot that is not the first byte.
pub open spec fn extension_dot(name: Seq<u8>) -> int {
    last_index_of(name, 46, name.len() as int)
}

/// A file name without its extension.
pub open spec fn spec_file_stem(name: Seq<u8>) -> Seq<u8> {
    if extension_dot(name) > 0 {
        name.subrange(0, extension_dot(name))
    } else {
        name
    }
}

/// The extension of a file name, without the dot.
pub open spec fn spec_extension(name: Seq<u8>) -> Option<Seq<u8>> {
    if extension_dot(name) > 0 {
        Some(name.subrange(extension_dot(name) + 1, name.len() as int))
    } else {
        None
    }
}

/// Name of the file that holds a bank's metadata.
pub open spec fn metadata_file_name() -> Seq<u8> {
    ascii_bytes(seq!['i', 'n', 'd', 'e', 'x', '.', 'j', 's', 'o', 'n'])
}

/// File name of the background image without its extension.
pub open spec fn background_stem() -> Seq<u8> {
    ascii_bytes(seq!['b', 'a', 'c', 'k', 'g', 'r', 'o', 'u', 'n', 'd'])
}

/// The kind of a file found from its name: the metadata file name, then the
/// background stem, then the extension, compared without case.
pub open spec fn classify(path: Seq<u8>) -> Option<ItemKind> {
    let name = spec_file_name(path);
    if eq_ignore_case(name, metadata_file_name()) {
        Some(ItemKind::Metadata)
    } else if eq_ignore_case(spec_file_stem(name), background_stem()) {
        Some(ItemKind::Background)
    } else {
        match spec_extension(name) {
            Some(ext) => first_kind_with_extension(all_kinds(), ext),
            None => None,
        }
    }
}

/// Every kind has at least one extension, and so every kind but the
/// background and the metadata has a directory.
pub proof fn lemma_every_kind_has_extension(kind: ItemKind)
    ensures
        spec_extensions(kind).len() >= 1,
        all_kinds().contains(kind),
        (kind != ItemKind::Background && kind != ItemKind::Metadata) ==> spec_directory(kind) is Some,
{
    match kind {
        ItemKind::Background => assert(all_kinds()[0] == kind),
        ItemKind::Metadata => assert(all_kinds()[1] == kind),
        ItemKind::Sample => assert(all_kinds()[2] == kind),
        ItemKind::MultipassPreset => assert(all_kinds()[3] == kind),
        ItemKind::PhasePlantPreset => assert(all_kinds()[4] == kind),
        ItemKind::SnapHeapPreset => assert(all_kinds()[5] == kind),
        ItemKind::ThreeBandEq => assert(all_kinds()[6] == kind),
        ItemKind::Bitcrush => assert(all_kinds()[7] == kind),
        ItemKind::CarveEq => assert(all_kinds()[8] == kind),
        ItemKind::Chorus => assert(all_kinds()[9] == kind),
        ItemKind::CombFilter => assert(all_kinds()[10] == kind),
        ItemKind::Compressor => assert(all_kinds()[11] == kind),
        ItemKind::Convolver => assert(all_kinds()[12] == kind),
        ItemKind::Delay => assert(all_kinds()[13] == kind),
        ItemKind::Disperser => assert(all_kinds()[14] == kind),
        ItemKind::Distortion => assert(all_kinds()[15] == kind),
        ItemKind::Dynamics => assert(all_kinds()[16] == kind),
        ItemKind::Ensemble => assert(all_kinds()[17] == kind),
        ItemKind::Faturator => assert(all_kinds()[18] == kind),
        ItemKind::Filter => assert(all_kinds()[19] == kind),
        ItemKind::Flanger => assert(all_kinds()[20] == kind),
        ItemKind::FormatFilter => assert(all_kinds()[21] == kind),
        ItemKind::FrequencyShifter => assert(all_kinds()[22] == kind),
        ItemKind::Gain => assert(all_kinds()[23] == kind),
        ItemKind::Gate => assert(all_kinds()[24] == kind),
        ItemKind::Haas => assert(all_kinds()[25] == kind),
        ItemKind::LadderFilter => assert(all_kinds()[26] == kind),
        ItemKind::Limiter => assert(all_kinds()[27] == kind),
        ItemKind::NonlinearFilter => assert(all_kinds()[28] == kind),
        ItemKind::PhaseDistortion => assert(all_kinds()[29] == kind),
        ItemKind::Phaser => assert(all_kinds()[30] == kind),
        ItemKind::PitchShifter => assert(all_kinds()[31] == kind),
        ItemKind::Resonator => assert(all_kinds()[32] == kind),
        ItemKind::Reverb => assert(all_kinds()[33] == kind),
        ItemKind::Reverser => assert(all_kinds()[34] == kind),
        ItemKind::RingMod => assert(all_kinds()[35] == kind),
        ItemKind::SliceEq => assert(all_kinds()[36] == kind),
        ItemKind::Stereo => assert(all_kinds()[37] == kind),
        ItemKind::TapeStop => assert(all_kinds()[38] == kind),
        ItemKind::TranceGate => assert(all_kinds()[39] == kind),
        ItemKind::TransientShaper => assert(all_kinds()[40] == kind),
    }
}

/// Extensions match without regard to case: two extensions that differ only
/// in the case of ASCII letters are accepted by the same kinds.
pub proof fn lemma_extension_case_insensitive(kind: ItemKind, a: Seq<u8>, b: Seq<u8>)
    requires
        eq_ignore_case(a, b),
    ensures
        kind_has_extension(kind, a) == kind_has_extension(kind, b),
{
    if kind_has_extension(kind, a) {
        let i = choose|i: int|
            0 <= i < spec_extensions(kind).len() && eq_ignore_case(
                ascii_bytes(#[trigger] spec_extensions(kind)[i]),
                a,
            );
        let e = ascii_bytes(spec_extensions(kind)[i]);
        assert forall|j: int| 0 <= j < e.len() implies lower_byte(#[trigger] e[j]) == lower_byte(
            b[j],
        ) by {
            assert(lower_byte(e[j]) == lower_byte(a[j]));
        }
        assert(eq_ignore_case(e, b));
    }
    if kind_has_extension(kind, b) {
        let i = choose|i: int|
            0 <= i < spec_extensions(kind).len() && eq_ignore_case(
                ascii_bytes(#[trigger] spec_extensions(kind)[i]),
                b,
            );
        let e = ascii_bytes(spec_extensions(kind)[i]);
        assert forall|j: int| 0 <= j < e.len() implies lower_byte(#[trigger] e[j]) == lower_byte(
            a[j],
        ) by {
            assert(lower_byte(e[j]) == lower_byte(b[j]));
        }
        assert(eq_ignore_case(e, a));
    }
}

/// ASCII lower case of a byte.
fn lower(b: u8) -> (r: u8)
    ensures
        r == lower_byte(b),
{
    if 65 <= b && b <= 90 {
        b + 32
    } else {
        b
    }
}

/// Compares two byte strings, ASCII letters without regard to case.
pub fn bytes_eq_ignore_case(a: &[u8], b: &[u8]) -> (r: bool)
    ensures
        r == eq_ignore_case(a@, b@),
{
    if a.len() != b.len() {
        return false;
    }
    let mut i: usize = 0;
    while i < a.len()
        invariant
            a@.len() == b@.len(),
            0 <= i <= a@.len(),
            forall|j: int| 0 <= j < i ==> lower_byte(#[trigger] a@[j]) == lower_byte(b@[j]),
        decreases a@.len() - i,
    {
        if lower(a[i]) != lower(b[i]) {
            return false;
        }
        i = i + 1;
    }
    true
}

/// Compares an ASCII text with a byte string, letters without regard to case.
pub(crate) fn ascii_eq_ignore_case(text: &str, b: &[u8]) -> (r: bool)
    requires
        is_ascii(text),
    ensures
        r == eq_ignore_case(ascii_bytes(text@), b@),
{
    proof {
        vstd::string::is_ascii_spec_bytes(text);
    }
    let t = text.as_bytes();
    assert(t@ =~= ascii_bytes(text@));
    bytes_eq_ignore_case(t, b)
}

/// Index of the last byte of `s` equal to `b` before `end`.
fn find_last(s: &[u8], b: u8, end: usize) -> (r: Option<usize>)
    requires
        end <= s@.len(),
    ensures
        match r {
            Some(i) => i as int == last_index_of(s@, b, end as int) && i < end,
            None => last_index_of(s@, b, end as int) == -1,
        },
{
    let mut k: usize = end;
    while k > 0
        invariant
            k <= end <= s@.len(),
            last_index_of(s@, b, end as int) == last_index_of(s@, b, k as int),
        decreases k,
    {
        if s[k - 1] == b {
            assert(last_index_of(s@, b, k as int) == k - 1);
            return Some(k - 1);
        }
        k = k - 1;
    }
    None
}

/// The last component of a path, its stem and its extension.
pub fn name_parts(path: &[u8]) -> (r: (&[u8], &[u8], Option<&[u8]>))
    ensures
        r.0@ == spec_file_name(path@),
        r.1@ == spec_file_stem(r.0@),
        match r.2 {
            Some(e) => spec_extension(r.0@) == Some(e@),
            None => spec_extension(r.0@) is None,
        },
{
    proof {
        lemma_last_index_of_bounds(path@, 47, path@.len() as int);
    }
    let start: usize = match find_last(path, 47, path.len()) {
        Some(i) => i + 1,
        None => 0,
    };
    let name = slice_subrange(path, start, path.len());
    assert(name@ =~= spec_file_name(path@));
    let dot = find_last(name, 46, name.len());
    proof {
        lemma_last_index_of_bounds(name@, 46, name@.len() as int);
    }
    let (stem, ext) = match dot {
        Some(d) if d > 0 => (slice_subrange(name, 0, d), Some(slice_subrange(name, d + 1, name.len()))),
        _ => (name, None),
    };
    assert(stem@ =~= spec_file_stem(name@));
    proof {
        match ext {
            Some(e) => assert(e@ =~= spec_extension(name@)->0),
            None => {},
        }
    }
    (name, stem, ext)
}

impl ItemKind {
    /// File name extensions that are used for the kind, without the leading dot.
    pub fn extensions(&self) -> (r: Vec<&'static str>)
        ensures
            r@.map_values(|s: &'static str| s@) == spec_extensions(*self),
            forall|i: int| 0 <= i < r@.len() ==> is_ascii(#[trigger] r@[i]),
    {
        let r = match self {
            ItemKind::Background => {
                proof { reveal_strlit("jpg"); reveal_strlit("png"); }
                let v = vec!["jpg", "png"];
                assert(v@.map_values(|s: &'static str| s@) =~~= spec_extensions(*self));
                v
            },
            ItemKind::Metadata => {
                proof { reveal_strlit("json"); }
                let v = vec!["json"];
                assert(v@.map_values(|s: &'static str| s@) =~~= spec_extensions(*self));
                v
            },
            ItemKind::Sample => {
                proof { reveal_strlit("flac"); reveal_strlit("mp3"); reveal_strlit("wav"); }
                let v = vec!["flac", "mp3", "wav"];
                assert(v@.map_values(|s: &'static str| s@) =~~= spec_extensions(*self));
                v
            },
            ItemKind::MultipassPreset => {
                proof { reveal_strlit("multipass"); }
                let v = vec!["multipass"];
                assert(v@.map_values(|s: &'static str| s@) =~~= spec_extensions(*self));
                v
            },
            ItemKind::PhasePlantPreset => {
                proof { reveal_strlit("phaseplant"); }
                let v = vec!["phaseplant"];
                assert(v@.map_values(|s: &'static str| s@) =~~= spec_extensions(*self));
                v
            },
            ItemKind::SnapHeapPreset => {
                proof { reveal_strlit("snapheap"); }
                let v = vec!["snapheap"];
                assert(v@.map_values(|s: &'static str| s@) =~~= spec_extensions(*self));
                v
            },
            ItemKind::ThreeBandEq => {
                proof { reveal_strlit("ksqe"); }
                let v = vec!["ksqe"];
                assert(v@.map_values(|s: &'static str| s@) =~~= spec_extensions(*self));
                v
            },
            ItemKind::Bitcrush => {
                proof { reveal_strlit("ksbc"); }
                let v = vec!["ksbc"];
                assert(v@.map_values(|s: &'static str| s@) =~~= spec_extensions(*self));
                v
            },
            ItemKind::CarveEq => {
                proof { reveal_strlit("ksge"); }
                let v = vec!["ksge"];
                assert(v@.map_values(|s: &'static str| s@) =~~= spec_extensions(*self));
                v
            },
            ItemKind::Chorus => {
                proof { reveal_strlit("ksch"); }
                let v = vec!["ksch"];
                assert(v@.map_values(|s: &'static str| s@) =~~= spec_extensions(*self));
                v
            },
            ItemKind::CombFilter => {
                proof { reveal_strlit("kscf"); }
                let v = vec!["kscf"];
                assert(v@.map_values(|s: &'static str| s@) =~~= spec_extensions(*self));
                v
            },
            ItemKind::Compressor => {
                proof { reveal_strlit("kscp"); }
                let v = vec!["kscp"];
                assert(v@.map_values(|s: &'static str| s@) =~~= spec_extensions(*self));
                v
            },
            ItemKind::Convolver => {
                proof { reveal_strlit("ksco"); }
                let v = vec!["ksco"];
                assert(v@.map_values(|s: &'static str| s@) =~~= spec_extensions(*self));
                v
            },
            ItemKind::Delay => {
                proof { reveal_strlit("ksdl"); }
                let v = vec!["ksdl"];
                assert(v@.map_values(|s: &'static str| s@) =~~= spec_extensions(*self));
                v
            },
            ItemKind::Disperser => {
                proof { reveal_strlit("kdsp"); }
                let v = vec!["kdsp"];
                assert(v@.map_values(|s: &'static str| s@) =~~= spec_extensions(*self));
                v
            },
            ItemKind::Distortion => {
                proof { reveal_strlit("ksdt"); }
                let v = vec!["ksdt"];
                assert(v@.map_values(|s: &'static str| s@) =~~= spec_extensions(*self));
                v
            },
            ItemKind::Dynamics => {
                proof { reveal_strlit("ksot"); }
                let v = vec!["ksot"];
                assert(v@.map_values(|s: &'static str| s@) =~~= spec_extensions(*self));
                v
            },
            ItemKind::Ensemble => {
                proof { reveal_strlit("ksun"); }
                let v = vec!["ksun"];
                assert(v@.map_values(|s: &'static str| s@) =~~= spec_extensions(*self));
                v
            },
            ItemKind::Faturator => {
                proof { reveal_strlit("kfat"); }
                let v = vec!["kfat"];
                assert(v@.map_values(|s: &'static str| s@) =~~= spec_extensions(*self));
                v
            },
            ItemKind::Filter => {
                proof { reveal_strlit("ksfi"); }
                let v = vec!["ksfi"];
                assert(v@.map_values(|s: &'static str| s@) =~~= spec_extensions(*self));
                v
            },
            ItemKind::Flanger => {
                proof { reveal_strlit("ksfl"); }
                let v = vec!["ksfl"];
                assert(v@.map_values(|s: &'static str| s@) =~~= spec_extensions(*self));
                v
            },
            ItemKind::FormatFilter => {
                proof { reveal_strlit("ksvf"); }
                let v = vec!["ksvf"];
                assert(v@.map_values(|s: &'static str| s@) =~~= spec_extensions(*self));
                v
            },
            ItemKind::FrequencyShifter => {
                proof { reveal_strlit("ksfs"); }
                let v = vec!["ksfs"];
                assert(v@.map_values(|s: &'static str| s@) =~~= spec_extensions(*self));
                v
            },
            ItemKind::Gain => {
                proof { reveal_strlit("ksgn"); }
                let v = vec!["ksgn"];
                assert(v@.map_values(|s: &'static str| s@) =~~= spec_extensions(*self));
                v
            },
            ItemKind::Gate => {
                proof { reveal_strlit("ksgt"); }
                let v = vec!["ksgt"];
                assert(v@.map_values(|s: &'static str| s@) =~~= spec_extensions(*self));
                v
            },
            ItemKind::Haas => {
                proof { reveal_strlit("ksha"); }
                let v = vec!["ksha"];
                assert(v@.map_values(|s: &'static str| s@) =~~= spec_extensions(*self));
                v
            },
            ItemKind::LadderFilter => {
                proof { reveal_strlit("ksla"); }
                let v = vec!["ksla"];
                assert(v@.map_values(|s: &'static str| s@) =~~= spec_extensions(*self));
                v
            },
            ItemKind::Limiter => {
                proof { reveal_strlit("kslt"); }
                let v = vec!["kslt"];
                assert(v@.map_values(|s: &'static str| s@) =~~= spec_extensions(*self));
                v
            },
            ItemKind::NonlinearFilter => {
                proof { reveal_strlit("ksdf"); }
                let v = vec!["ksdf"];
                assert(v@.map_values(|s: &'static str| s@) =~~= spec_extensions(*self));
                v
            },
            ItemKind::PhaseDistortion => {
                proof { reveal_strlit("kspd"); }
                let v = vec!["kspd"];
                assert(v@.map_values(|s: &'static str| s@) =~~= spec_extensions(*self));
                v
            },
            ItemKind::Phaser => {
                proof { reveal_strlit("ksph"); }
                let v = vec!["ksph"];
                assert(v@.map_values(|s: &'static str| s@) =~~= spec_extensions(*self));
                v
            },
            ItemKind::PitchShifter => {
                proof { reveal_strlit("ksps"); }
                let v = vec!["ksps"];
                assert(v@.map_values(|s: &'static str| s@) =~~= spec_extensions(*self));
                v
            },
            ItemKind::Resonator => {
                proof { reveal_strlit("ksre"); }
                let v = vec!["ksre"];
                assert(v@.map_values(|s: &'static str| s@) =~~= spec_extensions(*self));
                v
            },
            ItemKind::Reverb => {
                proof { reveal_strlit("ksrv"); }
                let v = vec!["ksrv"];
                assert(v@.map_values(|s: &'static str| s@) =~~= spec_extensions(*self));
                v
            },
            ItemKind::Reverser => {
                proof { reveal_strlit("ksrr"); }
                let v = vec!["ksrr"];
                assert(v@.map_values(|s: &'static str| s@) =~~= spec_extensions(*self));
                v
            },
            ItemKind::RingMod => {
                proof { reveal_strlit("ksrm"); }
                let v = vec!["ksrm"];
                assert(v@.map_values(|s: &'static str| s@) =~~= spec_extensions(*self));
                v
            },
            ItemKind::SliceEq => {
                proof { reveal_strlit("kpeq"); }
                let v = vec!["kpeq"];
                assert(v@.map_values(|s: &'static str| s@) =~~= spec_extensions(*self));
                v
            },
            ItemKind::Stereo => {
                proof { reveal_strlit("ksst"); }
                let v = vec!["ksst"];
                assert(v@.map_values(|s: &'static str| s@) =~~= spec_extensions(*self));
                v
            },
            ItemKind::TapeStop => {
                proof { reveal_strlit("ksts"); }
                let v = vec!["ksts"];
                assert(v@.map_values(|s: &'static str| s@) =~~= spec_extensions(*self));
                v
            },
            ItemKind::TranceGate => {
                proof { reveal_strlit("kstg"); }
                let v = vec!["kstg"];
                assert(v@.map_values(|s: &'static str| s@) =~~= spec_extensions(*self));
                v
            },
            ItemKind::TransientShaper => {
                proof { reveal_strlit("kstr"); }
                let v = vec!["kstr"];
                assert(v@.map_values(|s: &'static str| s@) =~~= spec_extensions(*self));
                v
            },
        };
        r
    }

    /// Every supported item kind, in the order of the enumeration.
    pub fn all() -> (r: [ItemKind; 41])
        ensures
            r@ == all_kinds(),
    {
        let r = [
            ItemKind::Background,
            ItemKind::Metadata,
            ItemKind::Sample,
            ItemKind::MultipassPreset,
            ItemKind::PhasePlantPreset,
            ItemKind::SnapHeapPreset,
            ItemKind::ThreeBandEq,
            ItemKind::Bitcrush,
            ItemKind::CarveEq,
            ItemKind::Chorus,
            ItemKind::CombFilter,
            ItemKind::Compressor,
            ItemKind::Convolver,
            ItemKind::Delay,
            ItemKind::Disperser,
            ItemKind::Distortion,
            ItemKind::Dynamics,
            ItemKind::Ensemble,
            ItemKind::Faturator,
            ItemKind::Filter,
            ItemKind::Flanger,
            ItemKind::FormatFilter,
            ItemKind::FrequencyShifter,
            ItemKind::Gain,
            ItemKind::Gate,
            ItemKind::Haas,
            ItemKind::LadderFilter,
            ItemKind::Limiter,
            ItemKind::NonlinearFilter,
            ItemKind::PhaseDistortion,
            ItemKind::Phaser,
            ItemKind::PitchShifter,
            ItemKind::Resonator,
            ItemKind::Reverb,
            ItemKind::Reverser,
            ItemKind::RingMod,
            ItemKind::SliceEq,
            ItemKind::Stereo,
            ItemKind::TapeStop,
            ItemKind::TranceGate,
            ItemKind::TransientShaper,
        ];
        assert(r@ =~= all_kinds());
        r
    }

    /// Name of the directory that holds files of this kind inside a bank.
    pub fn directory(&self) -> (r: Option<&'static str>)
        ensures
            match r {
                Some(d) => spec_directory(*self) == Some(d@) && is_ascii(d),
                None => spec_directory(*self) is None,
            },
    {
        match self {
            ItemKind::Background | ItemKind::Metadata => None,
            _ => {
                let exts = self.extensions();
                proof {
                    lemma_every_kind_has_extension(*self);
                    assert(exts@.map_values(|s: &'static str| s@)[0] == exts@[0]@);
                }
                Some(exts[0])
            },
        }
    }

    /// Whether the extension, without the leading dot, is one used by this kind
    /// of item. Letters are compared without regard to case.
    pub fn has_extension(&self, extension: &[u8]) -> (r: bool)
        ensures
            r == kind_has_extension(*self, extension@),
    {
        let exts = self.extensions();
        let ghost names = exts@.map_values(|s: &'static str| s@);
        let mut i: usize = 0;
        while i < exts.len()
            invariant
                0 <= i <= exts@.len(),
                names == spec_extensions(*self),
                names == exts@.map_values(|s: &'static str| s@),
                forall|j: int| 0 <= j < exts@.len() ==> is_ascii(#[trigger] exts@[j]),
                forall|j: int|
                    0 <= j < i ==> !eq_ignore_case(ascii_bytes(#[trigger] names[j]), extension@),
            decreases exts@.len() - i,
        {
            assert(names[i as int] == exts@[i as int]@);
            if ascii_eq_ignore_case(exts[i], extension) {
                return true;
            }
            i = i + 1;
        }
        false
    }

    /// The first kind, in the order of the enumeration, that accepts the extension.
    fn first_with_extension(e: &[u8]) -> (r: Option<ItemKind>)
        ensures
            r == first_kind_with_extension(all_kinds(), e@),
    {
        let kinds = ItemKind::all();
        let mut i: usize = 0;
        assert(all_kinds().subrange(0, 41) =~= all_kinds());
        while i < 41
            invariant
                0 <= i <= 41,
                kinds@ == all_kinds(),
                first_kind_with_extension(all_kinds(), e@)
                    == first_kind_with_extension(all_kinds().subrange(i as int, 41), e@),
            decreases 41 - i,
        {
            let k = kinds[i];
            assert(all_kinds().subrange(i as int, 41).drop_first() =~= all_kinds().subrange(i + 1, 41));
            if k.has_extension(e) {
                assert(k == all_kinds().subrange(i as int, 41)[0]);
                assert(first_kind_with_extension(all_kinds().subrange(i as int, 41), e@) == Some(k));
                return Some(k);
            }
            i = i + 1;
        }
        None
    }

    /// Finds the kind of a file from its name: the metadata file name, then
    /// the background stem, then the extension, all compared without case.
    /// Components of the path are separated by `/`.
    pub fn from(path: &[u8]) -> (r: Option<ItemKind>)
        ensures
            r == classify(path@),
    {
        let (name, stem, ext) = name_parts(path);
        proof {
            reveal_strlit("index.json");
            reveal_strlit("background");
        }
        assert(ascii_bytes("index.json"@) == metadata_file_name());
        assert(ascii_bytes("background"@) == background_stem());
        if ascii_eq_ignore_case("index.json", name) {
            return Some(ItemKind::Metadata);
        }
        if ascii_eq_ignore_case("background", stem) {
            return Some(ItemKind::Background);
        }
        match ext {
            None => None,
            Some(e) => {
                assert(Some(e@) == spec_extension(name@));
                ItemKind::first_with_extension(e)
            },
        }
    }
}

} // verus!
