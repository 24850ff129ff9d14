//! The scanner of binary VDF files.
//!
//! A binary file holds, for each application, the bytes `appid`, a zero
//! byte and the id in four bytes, lowest first; then one byte that tags what
//! follows; then entries made of a key, a zero byte, the value and a zero
//! byte. The scanner does not read this structure: it looks for the byte
//! patterns.

use vstd::prelude::*;
use vstd::utf8::encode_utf8;
use crate::steam::names::AppNames;
use crate::steam::AppId;

verus! {

/// The text that a run of bytes stands for when bytes that are not UTF-8 are
/// replaced and not refused, as `String::from_utf8_lossy` of the standard
/// library reads it.
pub uninterp spec fn utf8_lossy(bytes: Seq<u8>) -> Seq<char>;

/// `String::from_utf8_lossy` of the standard library, with its result as an
/// owned string: the text is a function of the bytes alone. Nothing more is
/// claimed of it.
#[verifier::external_body]
fn decode_lossy(bytes: &Vec<u8>) -> (text: String)
    ensures
        text@ == utf8_lossy(bytes@),
{
    String::from_utf8_lossy(bytes).into_owned()
}

/// Whether `pattern` stands in `buf` at index `i`.
pub open spec fn occurs_at(buf: Seq<u8>, pattern: Seq<u8>, i: int) -> bool {
    &&& 0 <= i
    &&& i + pattern.len() <= buf.len()
    &&& buf.subrange(i, i + pattern.len()) == pattern
}

/// The least index at or after `from` at which `pattern` stands in `buf`.
pub open spec fn first_from(buf: Seq<u8>, pattern: Seq<u8>, from: int) -> Option<int>
    decreases buf.len() - from + 1,
{
    if from < 0 || from + pattern.len() > buf.len() {
        None
    } else if occurs_at(buf, pattern, from) {
        Some(from)
    } else {
        first_from(buf, pattern, from + 1)
    }
}

/// The four bytes of `n`, lowest first.
pub open spec fn le_bytes(n: u32) -> Seq<u8> {
    seq![
        (n % 0x100) as u8,
        (n / 0x100 % 0x100) as u8,
        (n / 0x1_0000 % 0x100) as u8,
        (n / 0x100_0000 % 0x100) as u8,
    ]
}

/// What marks the record of `id`: the bytes `appid`, a zero byte and the
/// lower 32 bits of the id, lowest byte first. The file has no room for a
/// longer id.
pub open spec fn id_marker(id: AppId) -> Seq<u8> {
    seq![0x61u8, 0x70u8, 0x70u8, 0x69u8, 0x64u8, 0u8] + le_bytes((id.0 % 0x1_0000_0000) as u32)
}

/// What marks the value of `key`: the key's bytes and a zero byte.
pub open spec fn key_marker(key: Seq<char>) -> Seq<u8> {
    encode_utf8(key).push(0u8)
}

/// Where the value of the first key of `keys[k..]` that occurs in `buf` at
/// or after `from` begins: behind the key's leftmost marker there.
pub open spec fn value_start(buf: Seq<u8>, from: int, keys: Seq<Seq<char>>, k: int) -> Option<int>
    decreases keys.len() - k,
{
    if k < 0 || k >= keys.len() {
        None
    } else {
        match first_from(buf, key_marker(keys[k]), from) {
            Some(at) => Some(at + key_marker(keys[k]).len()),
            None => value_start(buf, from, keys, k + 1),
        }
    }
}

/// The bytes from `start` up to the next zero byte.
pub open spec fn zero_ended(buf: Seq<u8>, start: int) -> Option<Seq<u8>> {
    match first_from(buf, seq![0u8], start) {
        Some(end) => Some(buf.subrange(start, end)),
        None => None,
    }
}

/// The name that `buf` holds for `id`. It is looked for behind the leftmost
/// marker of the id and the tag byte that follows it, under the first key of
/// `keys` that occurs there, and ends before the next zero byte. There is
/// none where the id's marker, every key or the closing zero byte is
/// missing.
pub open spec fn name_in(buf: Seq<u8>, keys: Seq<Seq<char>>, id: AppId) -> Option<Seq<char>> {
    match first_from(buf, id_marker(id), 0) {
        Some(at) => match value_start(buf, at + id_marker(id).len() + 1, keys, 0) {
            Some(start) => match zero_ended(buf, start) {
                Some(bytes) => Some(utf8_lossy(bytes)),
                None => None,
            },
            None => None,
        },
        None => None,
    }
}

/// The texts of the keys.
pub open spec fn key_texts(keys: Seq<&str>) -> Seq<Seq<char>> {
    Seq::new(keys.len(), |k: int| keys[k]@)
}

/// Whether `pattern` stands in `buf` at `i`.
fn stands_at(buf: &[u8], pattern: &Vec<u8>, i: usize) -> (b: bool)
    requires
        i + pattern.len() <= buf.len(),
    ensures
        b == occurs_at(buf@, pattern@, i as int),
{
    let mut j: usize = 0;
    while j < pattern.len()
        invariant
            j <= pattern.len(),
            i + pattern.len() <= buf.len(),
            forall|k: int| 0 <= k < j ==> buf@[i + k] == pattern@[k],
        decreases pattern.len() - j,
    {
        if buf[i + j] != pattern[j] {
            assert(buf@.subrange(i as int, i + pattern.len())[j as int] != pattern@[j as int]);
            return false;
        }
        j += 1;
    }
    assert(buf@.subrange(i as int, i + pattern.len()) =~= pattern@);
    true
}

/// The least index at or after `from` at which `pattern` stands in `buf`.
pub fn find(buf: &[u8], pattern: &Vec<u8>, from: usize) -> (at: Option<usize>)
    ensures
        match at {
            Some(i) => first_from(buf@, pattern@, from as int) == Some(i as int) && i
                + pattern.len() <= buf.len(),
            None => first_from(buf@, pattern@, from as int) is None,
        },
{
    if pattern.len() > buf.len() {
        return None;
    }
    let last: usize = buf.len() - pattern.len();
    let mut i: usize = from;
    while i <= last
        invariant
            from <= i,
            last == buf.len() - pattern.len(),
            first_from(buf@, pattern@, from as int) == first_from(buf@, pattern@, i as int),
        decreases last + 1 - i,
    {
        if stands_at(buf, pattern, i) {
            return Some(i);
        }
        if i == last {
            return None;
        }
        i += 1;
    }
    None
}

/// The marker of `id`.
fn id_marker_of(id: AppId) -> (marker: Vec<u8>)
    ensures
        marker@ == id_marker(id),
{
    let low: u64 = id.0 % 0x1_0000_0000;
    let mut marker: Vec<u8> = Vec::new();
    marker.push(0x61);
    marker.push(0x70);
    marker.push(0x70);
    marker.push(0x69);
    marker.push(0x64);
    marker.push(0);
    marker.push((low % 0x100) as u8);
    marker.push((low / 0x100 % 0x100) as u8);
    marker.push((low / 0x1_0000 % 0x100) as u8);
    marker.push((low / 0x100_0000 % 0x100) as u8);
    assert(marker@ =~= id_marker(id));
    marker
}

/// The marker of `key`.
fn key_marker_of(key: &str) -> (marker: Vec<u8>)
    ensures
        marker@ == key_marker(key@),
{
    let bytes = key.as_bytes();
    let mut marker: Vec<u8> = Vec::new();
    let mut i: usize = 0;
    while i < bytes.len()
        invariant
            i <= bytes.len(),
            marker@ == bytes@.take(i as int),
        decreases bytes.len() - i,
    {
        marker.push(bytes[i]);
        i += 1;
    }
    assert(bytes@.take(bytes.len() as int) =~= bytes@);
    marker.push(0);
    marker
}

/// The markers of the keys, in their order.
fn key_markers(possible_keys: &[&str]) -> (markers: Vec<Vec<u8>>)
    ensures
        markers.len() == possible_keys.len(),
        forall|k: int|
            0 <= k < markers.len() ==> (#[trigger] markers[k])@ == key_marker(possible_keys@[k]@),
{
    let mut markers: Vec<Vec<u8>> = Vec::new();
    let mut k: usize = 0;
    while k < possible_keys.len()
        invariant
            k <= possible_keys.len(),
            markers.len() == k,
            forall|j: int|
                0 <= j < k ==> (#[trigger] markers[j])@ == key_marker(possible_keys@[j]@),
        decreases possible_keys.len() - k,
    {
        markers.push(key_marker_of(possible_keys[k]));
        k += 1;
    }
    markers
}

/// Where the value of the first of the keys that occurs at or after `from`
/// begins.
fn find_value(buf: &[u8], from: usize, markers: &Vec<Vec<u8>>, Ghost(keys): Ghost<Seq<Seq<char>>>) -> (start: Option<usize>)
    requires
        markers.len() == keys.len(),
        forall|k: int| 0 <= k < markers.len() ==> (#[trigger] markers[k])@ == key_marker(keys[k]),
    ensures
        match start {
            Some(s) => value_start(buf@, from as int, keys, 0) == Some(s as int) && s <= buf.len(),
            None => value_start(buf@, from as int, keys, 0) is None,
        },
{
    let mut k: usize = 0;
    while k < markers.len()
        invariant
            k <= markers.len() == keys.len(),
            forall|j: int|
                0 <= j < markers.len() ==> (#[trigger] markers[j])@ == key_marker(keys[j]),
            value_start(buf@, from as int, keys, 0) == value_start(buf@, from as int, keys, k as int),
        decreases markers.len() - k,
    {
        match find(buf, &markers[k], from) {
            Some(at) => {
                return Some(at + markers[k].len());
            },
            None => {},
        }
        k += 1;
    }
    None
}

/// What `first_from` finds is an occurrence at or after `from`, and the
/// leftmost one.
pub proof fn lemma_first_from(buf: Seq<u8>, pattern: Seq<u8>, from: int)
    requires
        0 <= from,
    ensures
        match first_from(buf, pattern, from) {
            Some(at) => from <= at && occurs_at(buf, pattern, at) && forall|i: int|
                from <= i < at ==> !#[trigger] occurs_at(buf, pattern, i),
            None => forall|i: int| from <= i ==> !#[trigger] occurs_at(buf, pattern, i),
        },
    decreases buf.len() - from + 1,
{
    if from < 0 || from + pattern.len() > buf.len() {
    } else if occurs_at(buf, pattern, from) {
    } else {
        lemma_first_from(buf, pattern, from + 1);
    }
}

/// Nothing is found behind the end of the bytes.
proof fn lemma_no_value_behind_end(buf: Seq<u8>, from: int, keys: Seq<Seq<char>>, k: int)
    requires
        from >= buf.len(),
        0 <= k,
    ensures
        value_start(buf, from, keys, k) is None,
    decreases keys.len() - k,
{
    if k < keys.len() {
        assert(key_marker(keys[k]).len() >= 1);
        lemma_no_value_behind_end(buf, from, keys, k + 1);
    }
}

/// The names that `buf` holds for the applications of `ids`.
pub open spec fn names_in(buf: Seq<u8>, keys: Seq<Seq<char>>, ids: Seq<AppId>) -> Map<
    AppId,
    Seq<char>,
> {
    Map::new(
        |id: AppId| ids.contains(id) && name_in(buf, keys, id) is Some,
        |id: AppId| name_in(buf, keys, id)->0,
    )
}

/// A copy of `buf[from..to]`.
fn copy_bytes(buf: &[u8], from: usize, to: usize) -> (bytes: Vec<u8>)
    requires
        from <= to <= buf.len(),
    ensures
        bytes@ == buf@.subrange(from as int, to as int),
{
    let mut bytes: Vec<u8> = Vec::new();
    let mut i: usize = from;
    while i < to
        invariant
            from <= i <= to <= buf.len(),
            bytes@ == buf@.subrange(from as int, i as int),
        decreases to - i,
    {
        bytes.push(buf[i]);
        i += 1;
    }
    bytes
}

/// The name that `buf` holds for `id`, `markers` being the markers of the
/// keys `possible_keys`.
fn find_name(buf: &[u8], possible_keys: &[&str], markers: &Vec<Vec<u8>>, id: AppId) -> (name:
    Option<String>)
    requires
        markers.len() == possible_keys.len(),
        forall|k: int|
            0 <= k < markers.len() ==> (#[trigger] markers[k])@ == key_marker(possible_keys@[k]@),
    ensures
        match name {
            Some(n) => name_in(buf@, key_texts(possible_keys@), id) == Some(n@),
            None => name_in(buf@, key_texts(possible_keys@), id) is None,
        },
{
    let ghost keys = key_texts(possible_keys@);
    let id_marker = id_marker_of(id);
    let at = match find(buf, &id_marker, 0) {
        Some(at) => at,
        None => { return None; },
    };
    if at + id_marker.len() == buf.len() {
        proof {
            lemma_no_value_behind_end(buf@, at + id_marker.len() + 1, keys, 0);
        }
        return None;
    }
    let start = match find_value(buf, at + id_marker.len() + 1, markers, Ghost(keys)) {
        Some(start) => start,
        None => { return None; },
    };
    let mut zero: Vec<u8> = Vec::new();
    zero.push(0);
    assert(zero@ =~= seq![0u8]);
    match find(buf, &zero, start) {
        Some(end) => {
            proof {
                lemma_first_from(buf@, zero@, start as int);
            }
            let bytes = copy_bytes(buf, start, end);
            Some(decode_lossy(&bytes))
        },
        None => None,
    }
}

/// Looks in the bytes of a binary VDF file for the names of the
/// applications of `whitelist`. Each name is looked for on its own, as
/// `name_in` says: the first of `possible_keys` that occurs behind the id
/// decides. An application without a name in the file is left out.
pub fn parse_names_from_bin_vdf(
    file_contents: &[u8],
    possible_keys: &[&str],
    whitelist: &[AppId],
) -> (names: AppNames)
    ensures
        names@ == names_in(file_contents@, key_texts(possible_keys@), whitelist@),
{
    let ghost keys = key_texts(possible_keys@);
    let markers = key_markers(possible_keys);
    let mut names = AppNames::new();
    let mut i: usize = 0;
    assert(names@ =~= names_in(file_contents@, keys, whitelist@.take(0)));
    while i < whitelist.len()
        invariant
            i <= whitelist.len(),
            keys == key_texts(possible_keys@),
            markers.len() == possible_keys.len(),
            forall|k: int|
                0 <= k < markers.len() ==> (#[trigger] markers[k])@ == key_marker(
                    possible_keys@[k]@,
                ),
            names@ == names_in(file_contents@, keys, whitelist@.take(i as int)),
        decreases whitelist.len() - i,
    {
        let id = whitelist[i];
        let ghost before = whitelist@.take(i as int);
        let ghost after = whitelist@.take(i + 1);
        assert(after =~= before.push(id));
        assert forall|other: AppId| after.contains(other) <==> before.contains(other) || other
            == id by {
            if before.contains(other) {
                let j = choose|j: int| 0 <= j < before.len() && before[j] == other;
                assert(after[j] == other);
            }
            if other == id {
                assert(after[i as int] == id);
            }
        }
        match find_name(file_contents, possible_keys, &markers, id) {
            Some(name) => {
                names.insert(id, name);
            },
            None => {},
        }
        assert(names@ =~= names_in(file_contents@, keys, after));
        i += 1;
    }
    assert(whitelist@.take(i as int) =~= whitelist@);
    names
}

} // verus!
