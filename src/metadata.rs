//! The metadata record of a bank and its JSON text.

use vstd::prelude::*;
use vstd::std_specs::iter::IteratorSpec;
use vstd::string::is_ascii;
use vstd::utf8::encode_utf8;

use crate::error::BankError;
use crate::kind::ascii_bytes;

verus! {

/// A JSON value as the metadata record keeps it.
#[derive(Clone, Debug)]
pub enum JsonField {
    /// `null`.
    Null,
    /// A string, without quotes or escapes.
    Text(String),
    /// Any other value, as JSON text. It is written as it is: it must be the
    /// valid JSON text of a value that is neither null nor a string, or the
    /// record read back differs.
    Other(String),
}

/// The metadata stored in a bank. A string field that is absent reads as
/// empty.
#[derive(Clone, Debug)]
pub struct Metadata {
    /// Only found in banks of the factory content.
    pub version: Option<u32>,
    /// A unique identifier for the bank, typically of the form "author.name".
    pub id: String,
    pub name: String,
    pub author: String,
    pub description: String,
    /// A 160-bit hash as a hex string. Only found in banks of the factory
    /// content.
    pub hash: Option<String>,
    /// Fields of the JSON text that are not part of the model. They are written
    /// in this order; a record read from JSON text has them in the order of
    /// their keys.
    pub extra: Vec<(String, JsonField)>,
}

/// A lower-case hexadecimal digit.
pub open spec fn hex_digit(d: u8) -> u8 {
    if d < 10 {
        (48 + d) as u8
    } else {
        (87 + d) as u8
    }
}

/// How a byte of a string is written inside JSON quotes: the quote, the
/// backslash and control bytes are escaped, other bytes are kept.
pub open spec fn escaped_byte(b: u8) -> Seq<u8> {
    if b == 8 {
        seq![92u8, 98u8]
    } else if b == 9 {
        seq![92u8, 116u8]
    } else if b == 10 {
        seq![92u8, 110u8]
    } else if b == 12 {
        seq![92u8, 102u8]
    } else if b == 13 {
        seq![92u8, 114u8]
    } else if b == 34 {
        seq![92u8, 34u8]
    } else if b == 92 {
        seq![92u8, 92u8]
    } else if b < 32 {
        seq![92u8, 117u8, 48u8, 48u8, hex_digit(b / 16), hex_digit(b % 16)]
    } else {
        seq![b]
    }
}

/// The escaped bytes of a string.
pub open spec fn escaped(b: Seq<u8>) -> Seq<u8>
    decreases b.len(),
{
    if b.len() == 0 {
        seq![]
    } else {
        escaped(b.drop_last()) + escaped_byte(b.last())
    }
}

/// The JSON text of a string: its UTF-8 bytes, escaped, between quotes.
pub open spec fn json_string_bytes(s: Seq<char>) -> Seq<u8> {
    seq![34u8] + escaped(encode_utf8(s)) + seq![34u8]
}

/// Relies on serde_json::to_vec on a `str`: the string as JSON text, quoted,
/// with `"`, `\\` and control bytes escaped as its escape table gives them.
/// Writing into a `Vec` does not fail.
#[verifier::external_body]
fn json_string(s: &str) -> (r: Vec<u8>)
    ensures
        r@ == json_string_bytes(s@),
{
    serde_json::to_vec(s).unwrap_or_default()
}

/// The members of the JSON object that the bytes hold, as
/// `json_object_members` gives them, or `None` when they hold no object.
pub uninterp spec fn json_members(b: Seq<u8>) -> Option<Seq<(String, JsonField)>>;

/// Relies on serde_json::from_slice into a `serde_json::Map`: the members of
/// the JSON object that the bytes hold, or `None` when they hold no object.
/// Values other than null and strings are kept as the compact JSON text that
/// serde_json's `Value` displays.
#[verifier::external_body]
fn json_object_members(b: &[u8]) -> (r: Option<Vec<(String, JsonField)>>)
    ensures
        match r {
            Some(v) => json_members(b@) == Some(v@),
            None => json_members(b@) is None,
        },
{
    let map: serde_json::Map<String, serde_json::Value> = serde_json::from_slice(b).ok()?;
    Some(map.into_iter().map(|(k, v)| match v {
        serde_json::Value::Null => (k, JsonField::Null),
        serde_json::Value::String(s) => (k, JsonField::Text(s)),
        other => (k, JsonField::Other(other.to_string())),
    }).collect())
}

/// Whether a character is alphabetic or numeric, as Unicode defines them.
pub uninterp spec fn alphanumeric(c: char) -> bool;

/// Relies on char::is_alphanumeric.
#[verifier::external_body]
fn is_alphanumeric(c: char) -> (r: bool)
    ensures
        r == alphanumeric(c),
{
    c.is_alphanumeric()
}

/// ASCII lower case of a character; other characters are unchanged.
pub open spec fn lower_char(c: char) -> char {
    if 'A' <= c <= 'Z' {
        ((c as u32) + 32) as char
    } else {
        c
    }
}

/// ASCII lower case of a character.
fn to_ascii_lowercase(c: char) -> (r: char)
    ensures
        r == lower_char(c),
{
    if 'A' <= c && c <= 'Z' {
        let b = c as u8 + 32;
        b as char
    } else {
        c
    }
}

/// Relies on String's `FromIterator<char>`: the characters in order.
#[verifier::external_body]
fn string_from_chars(v: Vec<char>) -> (r: String)
    ensures
        r@ == v@,
{
    v.into_iter().collect()
}

/// The characters of a text, in order.
fn chars_of(s: &str) -> (r: Vec<char>)
    ensures
        r@ == s@,
{
    broadcast use vstd::string::next_postcondition;

    let mut it = s.chars();
    proof {
        vstd::string::axiom_spec_iter(s);
    }
    let mut r: Vec<char> = Vec::new();
    loop
        invariant
            r@ + it.remaining() == s@,
            it.decrease() is Some,
        ensures
            r@ == s@,
        decreases it.decrease()->0,
    {
        match it.next() {
            Some(c) => {
                r.push(c);
            },
            None => {
                assert(r@ =~= s@);
                break;
            },
        }
    }
    r
}

/// The characters kept in a bank id, in lower case.
pub open spec fn sanitized(s: Seq<char>) -> Seq<char>
    decreases s.len(),
{
    if s.len() == 0 {
        seq![]
    } else {
        let c = s.last();
        sanitized(s.drop_last()) + if alphanumeric(c) || c == '.' {
            seq![lower_char(c)]
        } else {
            seq![]
        }
    }
}

/// The id made from the author and the name: their sanitized forms, the
/// empty ones left out, joined by a dot.
pub open spec fn synthesized_id(author: Seq<char>, name: Seq<char>) -> Seq<char> {
    let a = sanitized(author);
    let n = sanitized(name);
    if a.len() == 0 {
        n
    } else if n.len() == 0 {
        a
    } else {
        a + seq!['.'] + n
    }
}

/// The id that is stored: the record's own, or one made from the author and
/// the name when it is empty.
pub open spec fn stored_id(m: Metadata) -> Seq<char> {
    if m.id@.len() == 0 {
        synthesized_id(m.author@, m.name@)
    } else {
        m.id@
    }
}

/// The decimal digits of a number.
pub open spec fn decimal(n: nat) -> Seq<u8>
    decreases n,
{
    if n < 10 {
        seq![(48 + n) as u8]
    } else {
        decimal(n / 10) + seq![(48 + n % 10) as u8]
    }
}

/// The value of a sequence of decimal digits.
pub open spec fn digits_value(b: Seq<u8>) -> nat
    decreases b.len(),
{
    if b.len() == 0 {
        0
    } else {
        digits_value(b.drop_last()) * 10 + (b.last() - 48) as nat
    }
}

/// Whether the bytes are one to ten decimal digits.
pub open spec fn is_digits(b: Seq<u8>) -> bool {
    &&& 1 <= b.len() <= 10
    &&& forall|i: int| 0 <= i < b.len() ==> 48 <= #[trigger] b[i] <= 57
}

/// The JSON text of a field value.
pub open spec fn field_json(f: JsonField) -> Seq<u8> {
    match f {
        JsonField::Null => ascii_bytes(seq!['n', 'u', 'l', 'l']),
        JsonField::Text(s) => json_string_bytes(s@),
        JsonField::Other(t) => encode_utf8(t@),
    }
}

/// One member of the pretty-printed object, with what separates it from the
/// member before.
pub open spec fn member_json(first: bool, key: Seq<char>, value: Seq<u8>) -> Seq<u8> {
    (if first {
        seq![10u8]
    } else {
        seq![44u8, 10u8]
    }) + seq![32u8, 32u8] + json_string_bytes(key) + seq![58u8, 32u8] + value
}

/// The members of the extra fields.
pub open spec fn extra_json(extra: Seq<(String, JsonField)>) -> Seq<u8>
    decreases extra.len(),
{
    if extra.len() == 0 {
        seq![]
    } else {
        extra_json(extra.drop_last()) + member_json(
            false,
            extra.last().0@,
            field_json(extra.last().1),
        )
    }
}

/// The pretty-printed JSON text of a record with the given id: the modelled
/// fields in order, then the extra ones.
pub open spec fn metadata_json(m: Metadata, id: Seq<char>) -> Seq<u8> {
    let version = match m.version {
        Some(v) => decimal(v as nat),
        None => ascii_bytes(seq!['n', 'u', 'l', 'l']),
    };
    let hash = match m.hash {
        Some(h) => json_string_bytes(h@),
        None => ascii_bytes(seq!['n', 'u', 'l', 'l']),
    };
    seq![123u8] + member_json(true, seq!['v', 'e', 'r', 's', 'i', 'o', 'n'], version)
        + member_json(false, seq!['i', 'd'], json_string_bytes(id)) + member_json(
        false,
        seq!['n', 'a', 'm', 'e'],
        json_string_bytes(m.name@),
    ) + member_json(false, seq!['a', 'u', 't', 'h', 'o', 'r'], json_string_bytes(m.author@))
        + member_json(
        false,
        seq!['d', 'e', 's', 'c', 'r', 'i', 'p', 't', 'i', 'o', 'n'],
        json_string_bytes(m.description@),
    ) + member_json(false, seq!['h', 'a', 's', 'h'], hash) + extra_json(m.extra@) + seq![
        10u8,
        125u8,
    ]
}

/// Whether a key names a modelled field.
pub open spec fn is_known_key(k: Seq<char>) -> bool {
    k == seq!['v', 'e', 'r', 's', 'i', 'o', 'n'] || k == seq!['i', 'd'] || k == seq![
        'n',
        'a',
        'm',
        'e',
    ] || k == seq!['a', 'u', 't', 'h', 'o', 'r'] || k == seq![
        'd',
        'e',
        's',
        'c',
        'r',
        'i',
        'p',
        't',
        'i',
        'o',
        'n',
    ] || k == seq!['h', 'a', 's', 'h']
}

/// Whether a member has a value of the type its key asks for.
pub open spec fn member_ok(k: Seq<char>, v: JsonField) -> bool {
    if k == seq!['v', 'e', 'r', 's', 'i', 'o', 'n'] {
        match v {
            JsonField::Null => true,
            JsonField::Other(t) => is_digits(encode_utf8(t@)) && digits_value(encode_utf8(t@))
                <= u32::MAX,
            JsonField::Text(_) => false,
        }
    } else if k == seq!['h', 'a', 's', 'h'] {
        !(v is Other)
    } else if is_known_key(k) {
        v is Text
    } else {
        true
    }
}

/// The text of the last member with the key, or the empty text.
pub open spec fn text_member(members: Seq<(String, JsonField)>, key: Seq<char>) -> Seq<char>
    decreases members.len(),
{
    if members.len() == 0 {
        seq![]
    } else if members.last().0@ == key {
        match members.last().1 {
            JsonField::Text(s) => s@,
            _ => seq![],
        }
    } else {
        text_member(members.drop_last(), key)
    }
}

/// The version given by the last member named "version".
pub open spec fn version_member(members: Seq<(String, JsonField)>) -> Option<u32>
    decreases members.len(),
{
    if members.len() == 0 {
        None
    } else if members.last().0@ == seq!['v', 'e', 'r', 's', 'i', 'o', 'n'] {
        match members.last().1 {
            JsonField::Other(t) => Some(digits_value(encode_utf8(t@)) as u32),
            _ => None,
        }
    } else {
        version_member(members.drop_last())
    }
}

/// The hash given by the last member named "hash".
pub open spec fn hash_member(members: Seq<(String, JsonField)>) -> Option<Seq<char>>
    decreases members.len(),
{
    if members.len() == 0 {
        None
    } else if members.last().0@ == seq!['h', 'a', 's', 'h'] {
        match members.last().1 {
            JsonField::Text(s) => Some(s@),
            _ => None,
        }
    } else {
        hash_member(members.drop_last())
    }
}

/// The members whose keys name no modelled field, in order.
pub open spec fn extra_members(members: Seq<(String, JsonField)>) -> Seq<(String, JsonField)>
    decreases members.len(),
{
    if members.len() == 0 {
        seq![]
    } else {
        extra_members(members.drop_last()) + if is_known_key(members.last().0@) {
            seq![]
        } else {
            seq![members.last()]
        }
    }
}

/// Whether every member has a value of the type its key asks for.
pub open spec fn members_ok(members: Seq<(String, JsonField)>) -> bool {
    forall|i: int| 0 <= i < members.len() ==> member_ok(#[trigger] members[i].0@, members[i].1)
}

/// Whether a record holds what the members give: the modelled fields from
/// their keys, the last member of a key winning, the string fields empty when
/// absent, and every other member, in order.
pub open spec fn decoded_from(m: Metadata, members: Seq<(String, JsonField)>) -> bool {
    &&& m.version == version_member(members)
    &&& m.id@ == text_member(members, seq!['i', 'd'])
    &&& m.name@ == text_member(members, seq!['n', 'a', 'm', 'e'])
    &&& m.author@ == text_member(members, seq!['a', 'u', 't', 'h', 'o', 'r'])
    &&& m.description@ == text_member(
        members,
        seq!['d', 'e', 's', 'c', 'r', 'i', 'p', 't', 'i', 'o', 'n'],
    )
    &&& match m.hash {
        Some(h) => hash_member(members) == Some(h@),
        None => hash_member(members) is None,
    }
    &&& m.extra@ == extra_members(members)
}

/// What parsing the JSON text of a record gives: an error when the text holds
/// no object or a member of the wrong type, else the record the members give.
pub open spec fn parsed_as(json: Seq<u8>, r: Result<Metadata, BankError>) -> bool {
    &&& (r is Err ==> (r matches Err(BankError::InvalidMetadata)))
    &&& (json_members(json) is None ==> r is Err)
    &&& match json_members(json) {
        Some(ms) => (r is Ok <==> members_ok(ms)) && match r {
            Ok(m) => decoded_from(m, ms),
            Err(_) => true,
        },
        None => true,
    }
}

/// Appends an ASCII text.
fn push_ascii(out: &mut Vec<u8>, s: &str)
    requires
        is_ascii(s),
    ensures
        final(out)@ == old(out)@ + ascii_bytes(s@),
{
    proof {
        vstd::string::is_ascii_spec_bytes(s);
    }
    out.extend_from_slice(s.as_bytes());
    assert(final(out)@ =~= old(out)@ + ascii_bytes(s@));
}

/// Appends the decimal digits of a number.
fn push_decimal(out: &mut Vec<u8>, n: u32)
    ensures
        final(out)@ == old(out)@ + decimal(n as nat),
    decreases n,
{
    if n >= 10 {
        push_decimal(out, n / 10);
    }
    out.push((48 + n % 10) as u8);
    assert(final(out)@ =~= old(out)@ + decimal(n as nat));
}

/// Appends one member of the pretty-printed object.
fn push_member(out: &mut Vec<u8>, first: bool, key: &str, value: &[u8])
    ensures
        final(out)@ == old(out)@ + member_json(first, key@, value@),
{
    let ghost start = out@;
    if first {
        out.push(10u8);
    } else {
        out.push(44u8);
        out.push(10u8);
    }
    out.push(32u8);
    out.push(32u8);
    let k = json_string(key);
    out.extend_from_slice(k.as_slice());
    out.push(58u8);
    out.push(32u8);
    out.extend_from_slice(value);
    assert(final(out)@ =~= start + member_json(first, key@, value@));
}

/// The JSON text of a field value.
fn field_to_json(f: &JsonField) -> (r: Vec<u8>)
    ensures
        r@ == field_json(*f),
{
    let mut r: Vec<u8> = Vec::new();
    match f {
        JsonField::Null => {
            proof {
                reveal_strlit("null");
            }
            push_ascii(&mut r, "null");
        },
        JsonField::Text(s) => {
            r = json_string(s.as_str());
        },
        JsonField::Other(t) => {
            r.extend_from_slice(t.as_str().as_bytes());
            assert(r@ =~= encode_utf8(t@));
        },
    }
    r
}

/// The value of one to ten decimal digits.
fn parse_digits(b: &[u8]) -> (r: Option<u64>)
    ensures
        r is Some <==> is_digits(b@),
        r matches Some(v) ==> v == digits_value(b@),
{
    if b.len() == 0 || b.len() > 10 {
        return None;
    }
    let mut v: u64 = 0;
    let mut i: usize = 0;
    while i < b.len()
        invariant
            1 <= b@.len() <= 10,
            0 <= i <= b@.len(),
            v == digits_value(b@.take(i as int)),
            v < pow10(i as nat),
            forall|j: int| 0 <= j < i ==> 48 <= #[trigger] b@[j] <= 57,
        decreases b@.len() - i,
    {
        if b[i] < 48 || b[i] > 57 {
            return None;
        }
        proof {
            assert(b@.take(i + 1).drop_last() =~= b@.take(i as int));
            lemma_pow10_bound(i as nat);
            assert(v * 10 + 9 < pow10(i as nat) * 10) by (nonlinear_arith)
                requires
                    v < pow10(i as nat),
            ;
        }
        v = v * 10 + (b[i] - 48) as u64;
        i = i + 1;
    }
    assert(b@.take(b@.len() as int) =~= b@);
    Some(v)
}

/// Ten to the power `n`.
pub open spec fn pow10(n: nat) -> nat
    decreases n,
{
    if n == 0 {
        1
    } else {
        10 * pow10((n - 1) as nat)
    }
}

/// Powers of ten up to the tenth are at most ten billion.
proof fn lemma_pow10_bound(n: nat)
    requires
        n <= 10,
    ensures
        pow10(n) <= 10_000_000_000,
        pow10(n + 1) == 10 * pow10(n),
    decreases 10 - n,
{
    if n < 10 {
        lemma_pow10_bound(n + 1);
    } else {
        reveal_with_fuel(pow10, 11);
    }
}

/// Whether the key of a member equals a text.
fn key_is(k: &String, name: &str) -> (r: bool)
    ensures
        r == (k@ == name@),
{
    let n = name.to_owned();
    *k == n
}

/// The keys of the modelled fields, as the texts that name them.
proof fn lemma_key_literals()
    ensures
        "version"@ == seq!['v', 'e', 'r', 's', 'i', 'o', 'n'],
        "id"@ == seq!['i', 'd'],
        "name"@ == seq!['n', 'a', 'm', 'e'],
        "author"@ == seq!['a', 'u', 't', 'h', 'o', 'r'],
        "description"@ == seq!['d', 'e', 's', 'c', 'r', 'i', 'p', 't', 'i', 'o', 'n'],
        "hash"@ == seq!['h', 'a', 's', 'h'],
{
    reveal_strlit("version");
    reveal_strlit("id");
    reveal_strlit("name");
    reveal_strlit("author");
    reveal_strlit("description");
    reveal_strlit("hash");
    assert("version"@ =~= seq!['v', 'e', 'r', 's', 'i', 'o', 'n']);
    assert("id"@ =~= seq!['i', 'd']);
    assert("name"@ =~= seq!['n', 'a', 'm', 'e']);
    assert("author"@ =~= seq!['a', 'u', 't', 'h', 'o', 'r']);
    assert("description"@ =~= seq!['d', 'e', 's', 'c', 'r', 'i', 'p', 't', 'i', 'o', 'n']);
    assert("hash"@ =~= seq!['h', 'a', 's', 'h']);
}

/// Whether the extra fields have distinct keys, none of which names a
/// modelled field: then the JSON text has no key twice.
pub open spec fn extra_keys_ok(extra: Seq<(String, JsonField)>) -> bool {
    &&& forall|i: int| 0 <= i < extra.len() ==> !is_known_key(#[trigger] extra[i].0@)
    &&& forall|i: int, j: int|
        0 <= i < j < extra.len() ==> (#[trigger] extra[i]).0@ != (#[trigger] extra[j]).0@
}

/// Whether a key names a modelled field.
fn known_key(k: &String) -> (r: bool)
    ensures
        r == is_known_key(k@),
{
    proof {
        lemma_key_literals();
    }
    key_is(k, "version") || key_is(k, "id") || key_is(k, "name") || key_is(k, "author") || key_is(
        k,
        "description",
    ) || key_is(k, "hash")
}

impl Default for Metadata {
    fn default() -> (r: Metadata)
        ensures
            r.version is None,
            r.id@.len() == 0,
            r.name@.len() == 0,
            r.author@.len() == 0,
            r.description@.len() == 0,
            r.hash is None,
            r.extra@.len() == 0,
    {
        Metadata {
            version: None,
            id: String::new(),
            name: String::new(),
            author: String::new(),
            description: String::new(),
            hash: None,
            extra: Vec::new(),
        }
    }
}

impl Metadata {
    /// Name of the file, inside and outside of a bank, that holds the metadata.
    pub const FILE_NAME: &'static str = "index.json";

    /// Bank ids are lower case and alphanumeric, with dots as separators:
    /// keeps the alphanumeric characters and the dots, in ASCII lower case.
    pub fn sanitize_id(str: &str) -> (r: String)
        ensures
            r@ == sanitized(str@),
    {
        let cs = chars_of(str);
        let mut kept: Vec<char> = Vec::new();
        let mut i: usize = 0;
        while i < cs.len()
            invariant
                cs@ == str@,
                0 <= i <= cs@.len(),
                kept@ == sanitized(cs@.take(i as int)),
            decreases cs@.len() - i,
        {
            let c = cs[i];
            proof {
                assert(cs@.take(i + 1).drop_last() =~= cs@.take(i as int));
            }
            if is_alphanumeric(c) || c == '.' {
                kept.push(to_ascii_lowercase(c));
            }
            assert(kept@ =~= sanitized(cs@.take(i + 1)));
            i = i + 1;
        }
        assert(cs@.take(cs@.len() as int) =~= cs@);
        string_from_chars(kept)
    }

    /// The id to store: the record's own, or, when it is empty, the sanitized
    /// author and name, the empty ones left out, joined by a dot.
    pub fn stored_id(&self) -> (r: String)
        ensures
            r@ == stored_id(*self),
    {
        if !self.id.as_str().is_empty() {
            return self.id.clone();
        }
        let a = Metadata::sanitize_id(self.author.as_str());
        let n = Metadata::sanitize_id(self.name.as_str());
        let mut parts: Vec<char> = Vec::new();
        let ac = chars_of(a.as_str());
        let nc = chars_of(n.as_str());
        let mut i: usize = 0;
        while i < ac.len()
            invariant
                0 <= i <= ac@.len(),
                parts@ == ac@.take(i as int),
            decreases ac@.len() - i,
        {
            parts.push(ac[i]);
            assert(parts@ =~= ac@.take(i + 1));
            i = i + 1;
        }
        assert(ac@.take(ac@.len() as int) =~= ac@);
        if ac.len() != 0 && nc.len() != 0 {
            parts.push('.');
        }
        let ghost mid = parts@;
        let mut i: usize = 0;
        while i < nc.len()
            invariant
                0 <= i <= nc@.len(),
                parts@ == mid + nc@.take(i as int),
            decreases nc@.len() - i,
        {
            parts.push(nc[i]);
            assert(parts@ =~= mid + nc@.take(i + 1));
            i = i + 1;
        }
        assert(nc@.take(nc@.len() as int) =~= nc@);
        assert(parts@ =~= synthesized_id(self.author@, self.name@));
        string_from_chars(parts)
    }

    /// The pretty-printed JSON text of the record with the given id.
    fn encode_with_id(&self, id: &str) -> (r: Vec<u8>)
        ensures
            r@ == metadata_json(*self, id@),
    {
        proof {
            reveal_strlit("null");
            lemma_key_literals();
        }
        let mut out: Vec<u8> = Vec::new();
        out.push(123u8);
        let mut version: Vec<u8> = Vec::new();
        match self.version {
            Some(v) => push_decimal(&mut version, v),
            None => push_ascii(&mut version, "null"),
        }
        assert(version@ =~= match self.version {
            Some(v) => decimal(v as nat),
            None => ascii_bytes(seq!['n', 'u', 'l', 'l']),
        });
        push_member(&mut out, true, "version", version.as_slice());
        let v = json_string(id);
        push_member(&mut out, false, "id", v.as_slice());
        let v = json_string(self.name.as_str());
        push_member(&mut out, false, "name", v.as_slice());
        let v = json_string(self.author.as_str());
        push_member(&mut out, false, "author", v.as_slice());
        let v = json_string(self.description.as_str());
        push_member(&mut out, false, "description", v.as_slice());
        let mut hash: Vec<u8> = Vec::new();
        match &self.hash {
            Some(h) => {
                hash = json_string(h.as_str());
            },
            None => push_ascii(&mut hash, "null"),
        }
        assert(hash@ =~= match self.hash {
            Some(h) => json_string_bytes(h@),
            None => ascii_bytes(seq!['n', 'u', 'l', 'l']),
        });
        push_member(&mut out, false, "hash", hash.as_slice());
        let ghost before_extra = out@;
        assert(before_extra =~= seq![123u8] + member_json(true, "version"@, version@) + member_json(false, "id"@, json_string_bytes(id@))
            + member_json(false, "name"@, json_string_bytes(self.name@)) + member_json(false, "author"@, json_string_bytes(self.author@))
            + member_json(false, "description"@, json_string_bytes(self.description@)) + member_json(false, "hash"@, hash@));
        let mut i: usize = 0;
        while i < self.extra.len()
            invariant
                0 <= i <= self.extra@.len(),
                out@ == before_extra + extra_json(self.extra@.take(i as int)),
            decreases self.extra@.len() - i,
        {
            let (k, f) = &self.extra[i];
            let value = field_to_json(f);
            push_member(&mut out, false, k.as_str(), value.as_slice());
            proof {
                assert(self.extra@.take(i + 1).drop_last() =~= self.extra@.take(i as int));
            }
            assert(out@ =~= before_extra + extra_json(self.extra@.take(i + 1)));
            i = i + 1;
        }
        assert(self.extra@.take(self.extra@.len() as int) =~= self.extra@);
        out.push(10u8);
        out.push(125u8);
        assert(out@ =~= metadata_json(*self, id@));
        out
    }

    /// Whether the extra fields have distinct keys, none of which names a
    /// modelled field.
    pub fn extra_keys_valid(&self) -> (r: bool)
        ensures
            r == extra_keys_ok(self.extra@),
    {
        let n = self.extra.len();
        let mut i: usize = 0;
        while i < n
            invariant
                n == self.extra@.len(),
                0 <= i <= n,
                forall|a: int| 0 <= a < i ==> !is_known_key(#[trigger] self.extra@[a].0@),
                forall|a: int, b: int|
                    0 <= a < i && a < b < n ==> (#[trigger] self.extra@[a]).0@
                        != (#[trigger] self.extra@[b]).0@,
            decreases n - i,
        {
            if known_key(&self.extra[i].0) {
                return false;
            }
            let mut j: usize = i + 1;
            while j < n
                invariant
                    n == self.extra@.len(),
                    0 <= i < j <= n,
                    forall|b: int| i < b < j ==> self.extra@[i as int].0@ != (#[trigger] self.extra@[b]).0@,
                decreases n - j,
            {
                if self.extra[i].0 == self.extra[j].0 {
                    return false;
                }
                j = j + 1;
            }
            i = i + 1;
        }
        true
    }

    /// The JSON text of the record as it is stored in a bank: pretty-printed,
    /// with an id made from the author and the name when the record has none.
    /// The extra fields must have distinct keys that name no modelled field.
    pub fn to_json(&self) -> (r: Vec<u8>)
        requires
            extra_keys_ok(self.extra@),
        ensures
            r@ == metadata_json(*self, stored_id(*self)),
    {
        let id = self.stored_id();
        self.encode_with_id(id.as_str())
    }

    /// Builds a record from the members of a JSON object: the modelled
    /// fields from their keys, the last member of a key winning, the string
    /// fields empty when absent, and every other member kept, in order.
    /// Fails when a modelled field has a value of another type.
    pub fn from_members(members: Vec<(String, JsonField)>) -> (r: Result<Metadata, BankError>)
        ensures
            r is Ok <==> members_ok(members@),
            r is Err ==> r matches Err(BankError::InvalidMetadata),
            r matches Ok(m) ==> decoded_from(m, members@),
    {
        let ghost all = members@;
        let mut source = members;
        let mut reversed: Vec<(String, JsonField)> = Vec::new();
        while source.len() > 0
            invariant
                all == members@,
                all == source@ + reversed@.reverse(),
            decreases source@.len(),
        {
            let last = source.pop().unwrap();
            reversed.push(last);
            assert(all =~= source@ + reversed@.reverse());
        }
        let mut m = Metadata::default();
        let ghost n = all.len();
        assert(reversed@.reverse() =~= all);
        while reversed.len() > 0
            invariant
                all == members@,
                n == all.len(),
                reversed@.len() <= n,
                all == all.take(n - reversed@.len()) + reversed@.reverse(),
                forall|i: int|
                    0 <= i < n - reversed@.len() ==> member_ok(#[trigger] all[i].0@, all[i].1),
                m.version == version_member(all.take(n - reversed@.len())),
                m.id@ == text_member(all.take(n - reversed@.len()), seq!['i', 'd']),
                m.name@ == text_member(all.take(n - reversed@.len()), seq!['n', 'a', 'm', 'e']),
                m.author@ == text_member(
                    all.take(n - reversed@.len()),
                    seq!['a', 'u', 't', 'h', 'o', 'r'],
                ),
                m.description@ == text_member(
                    all.take(n - reversed@.len()),
                    seq!['d', 'e', 's', 'c', 'r', 'i', 'p', 't', 'i', 'o', 'n'],
                ),
                match m.hash {
                    Some(h) => hash_member(all.take(n - reversed@.len())) == Some(h@),
                    None => hash_member(all.take(n - reversed@.len())) is None,
                },
                m.extra@ == extra_members(all.take(n - reversed@.len())),
            decreases reversed@.len(),
        {
            let ghost done = n - reversed@.len();
            let (k, v) = reversed.pop().unwrap();
            proof {
                assert(all[done] == (k, v));
                assert(all.take(done + 1).drop_last() =~= all.take(done));
                assert(all =~= all.take(done + 1) + reversed@.reverse());
            }
            proof {
                lemma_key_literals();
            }
            if key_is(&k, "version") {
                match v {
                    JsonField::Null => {
                        m.version = None;
                    },
                    JsonField::Other(t) => {
                        match parse_digits(t.as_str().as_bytes()) {
                            Some(d) => {
                                if d > 4294967295 {
                                    assert(!member_ok(all[done].0@, all[done].1));
                                    return Err(BankError::InvalidMetadata);
                                }
                                m.version = Some(d as u32);
                            },
                            None => {
                                assert(!member_ok(all[done].0@, all[done].1));
                                    return Err(BankError::InvalidMetadata);
                            },
                        }
                    },
                    JsonField::Text(_) => {
                        assert(!member_ok(all[done].0@, all[done].1));
                                    return Err(BankError::InvalidMetadata);
                    },
                }
            } else if key_is(&k, "hash") {
                match v {
                    JsonField::Null => {
                        m.hash = None;
                    },
                    JsonField::Text(h) => {
                        m.hash = Some(h);
                    },
                    JsonField::Other(_) => {
                        assert(!member_ok(all[done].0@, all[done].1));
                                    return Err(BankError::InvalidMetadata);
                    },
                }
            } else if key_is(&k, "id") || key_is(&k, "name") || key_is(&k, "author") || key_is(
                &k,
                "description",
            ) {
                match v {
                    JsonField::Text(t) => {
                        if key_is(&k, "id") {
                            m.id = t;
                        } else if key_is(&k, "name") {
                            m.name = t;
                        } else if key_is(&k, "author") {
                            m.author = t;
                        } else {
                            m.description = t;
                        }
                    },
                    _ => {
                        assert(!member_ok(all[done].0@, all[done].1));
                                    return Err(BankError::InvalidMetadata);
                    },
                }
            } else {
                m.extra.push((k, v));
                assert(m.extra@ =~= extra_members(all.take(done + 1)));
            }
        }
        assert(all.take(n as int) =~= all);
        Ok(m)
    }

    /// Reads a record from its JSON text.
    pub fn parse(json: &[u8]) -> (r: Result<Metadata, BankError>)
        ensures
            parsed_as(json@, r),
    {
        match json_object_members(json) {
            Some(members) => Metadata::from_members(members),
            None => Err(BankError::InvalidMetadata),
        }
    }
}

} // verus!
