//! The scanner of text VDF files.
//!
//! ```vdf
//! "[section]"
//! {
//!     "[app_id]"
//!     {
//!         "[key_1]"   "[value_1]"
//!         "[key_2]"   "[value_2]"
//!     }
//! }
//! ```
//!
//! One routine serves every such file: it looks for the values of a table of
//! keys inside one section and hands each of them, with the id of the
//! application it belongs to, to the parser that the table names for the key.

use vstd::prelude::*;
use crate::decimal::{numeral_value, parse_u64};
use crate::steam::{contains_id, AppId};
use crate::text::{
    chars_of, eq_ignore_ascii_case, lowercase_of, quote, quoted, same_ignoring_ascii_case,
    starts_with, string_of, trim, trim_quotes, trimmed, unquoted,
};

verus! {

/// What a key's value is handed to: it takes the accumulator, works the
/// value of one application in, and gives the accumulator back.
pub trait KeyParser<T> {
    fn parse(&self, value: &str, app_id: &AppId, acc: T) -> T;
}

/// A value found for a key of the table.
pub struct KeyValue {
    /// The key's place in the table.
    pub key: int,
    /// The application in whose block the line stands.
    pub app_id: AppId,
    /// The value as the file writes it, escapes included.
    pub value: Seq<char>,
}

/// How far a scan has come.
pub struct Scan {
    /// Braces opened and not yet closed since the section began; negative
    /// once the section's own closing brace has been read.
    pub depth: int,
    /// The application whose block the scan is in.
    pub app_id: Option<AppId>,
    /// The values found so far, in file order.
    pub found: Seq<KeyValue>,
}

/// The index of the `n`-th double quote of `t` at or after `from` (counting
/// from 1), or the length of `t` where there are fewer.
pub open spec fn quote_index(t: Seq<char>, from: int, n: nat) -> int
    decreases t.len() - from,
{
    if from < 0 || from >= t.len() || n == 0 {
        t.len() as int
    } else if t[from] == '"' {
        if n == 1 {
            from
        } else {
            quote_index(t, from + 1, (n - 1) as nat)
        }
    } else {
        quote_index(t, from + 1, n)
    }
}

/// The value of a key line: the fourth field that the double quotes cut the
/// line into, which is all that stands between the line's third quote and
/// its last character (the closing quote). Quotes inside it stay as they
/// are, with the backslashes that escape them. `None` where the line has no
/// third quote or nothing but one character after it.
pub open spec fn value_field(t: Seq<char>) -> Option<Seq<char>> {
    let q = quote_index(t, 0, 3);
    if q + 2 < t.len() {
        Some(t.subrange(q + 1, t.len() - 1))
    } else {
        None
    }
}

/// Whether the line `t` is a line of the key `key`: in lower case, it begins
/// with the key in lower case between double quotes.
pub open spec fn names_key(t: Seq<char>, key: Seq<char>) -> bool {
    quoted(lowercase_of(key)).is_prefix_of(lowercase_of(t))
}

/// Whether `id` may become the current application.
pub open spec fn tracks(whitelist: Option<Seq<AppId>>, id: AppId) -> bool {
    match whitelist {
        Some(ids) => ids.contains(id),
        None => true,
    }
}

/// The values that the line `t` gives for the first `n` keys of the table,
/// in the table's order.
pub open spec fn line_values(t: Seq<char>, keys: Seq<Seq<char>>, id: AppId, n: int) -> Seq<
    KeyValue,
>
    decreases n,
{
    if n <= 0 {
        Seq::empty()
    } else {
        let before = line_values(t, keys, id, n - 1);
        if names_key(t, keys[n - 1]) && value_field(t) is Some {
            before.push(KeyValue { key: n - 1, app_id: id, value: value_field(t)->0 })
        } else {
            before
        }
    }
}

/// The scan after one more line, `t` being the line without the whitespace
/// around it.
///
/// An opening brace goes one level down. A closing brace comes one level up
/// and ends the block of the current application. A numeral between double
/// quotes names an application: it becomes the current one if the whitelist
/// has it or there is no whitelist, else there is no current application.
/// Any other line counts only inside the block of an application, where it
/// gives its value to each key of the table that it is a line of.
pub open spec fn scan_line(
    s: Scan,
    t: Seq<char>,
    keys: Seq<Seq<char>>,
    whitelist: Option<Seq<AppId>>,
) -> Scan {
    if t == seq!['{'] {
        Scan { depth: s.depth + 1, app_id: s.app_id, found: s.found }
    } else if t == seq!['}'] {
        Scan { depth: s.depth - 1, app_id: None, found: s.found }
    } else {
        match numeral_value(unquoted(t)) {
            Some(n) => Scan {
                depth: s.depth,
                app_id: if tracks(whitelist, AppId(n)) {
                    Some(AppId(n))
                } else {
                    None
                },
                found: s.found,
            },
            None => match s.app_id {
                Some(id) => Scan {
                    depth: s.depth,
                    app_id: s.app_id,
                    found: s.found + line_values(t, keys, id, keys.len() as int),
                },
                None => s,
            },
        }
    }
}

/// The scan after the `n` lines that follow `lines[start]`, that line
/// included. It rests once the depth is negative: what follows the
/// section's closing brace is not read.
pub open spec fn scanned(
    lines: Seq<Seq<char>>,
    start: int,
    n: int,
    keys: Seq<Seq<char>>,
    whitelist: Option<Seq<AppId>>,
) -> Scan
    decreases n,
{
    if n <= 0 {
        Scan { depth: 0, app_id: None, found: Seq::empty() }
    } else {
        let before = scanned(lines, start, n - 1, keys, whitelist);
        if before.depth < 0 || !(0 <= start + n - 1 < lines.len()) {
            before
        } else {
            scan_line(before, trimmed(lines[start + n - 1]), keys, whitelist)
        }
    }
}

/// Whether `line` is the header of `section`: between the whitespace around
/// it stands the section's name in double quotes, in any ASCII case.
pub open spec fn is_header(line: Seq<char>, section: Seq<char>) -> bool {
    same_ignoring_ascii_case(trimmed(line), quoted(section))
}

/// The index of the first header of `section` at or after `from`, or the
/// number of lines where there is none.
pub open spec fn header_index(lines: Seq<Seq<char>>, section: Seq<char>, from: int) -> int
    decreases lines.len() - from,
{
    if from < 0 || from >= lines.len() || is_header(lines[from], section) {
        if from < 0 {
            lines.len() as int
        } else {
            from
        }
    } else {
        header_index(lines, section, from + 1)
    }
}

/// The values that a file gives for a table of keys inside a section, in
/// file order: the scan of the lines from the second line after the
/// section's first header. A file without the section gives none.
pub open spec fn key_values(
    section: Seq<char>,
    lines: Seq<Seq<char>>,
    keys: Seq<Seq<char>>,
    whitelist: Option<Seq<AppId>>,
) -> Seq<KeyValue> {
    let start = header_index(lines, section, 0) + 2;
    scanned(lines, start, lines.len() - start, keys, whitelist).found
}

/// The texts of the lines.
pub open spec fn texts(lines: Seq<String>) -> Seq<Seq<char>> {
    Seq::new(lines.len(), |i: int| lines[i]@)
}

/// The keys of a table of parsers.
pub open spec fn key_names<P>(parsers: Seq<(&str, P)>) -> Seq<Seq<char>> {
    Seq::new(parsers.len(), |k: int| parsers[k].0@)
}

/// The ids of a whitelist.
pub open spec fn listed(whitelist: Option<&Vec<AppId>>) -> Option<Seq<AppId>> {
    match whitelist {
        Some(ids) => Some(ids@),
        None => None,
    }
}

/// Handing `found` to its parser may turn the accumulator `before` into
/// `after`.
pub open spec fn parses_one<T, P: KeyParser<T>>(
    parsers: Seq<(&str, P)>,
    found: KeyValue,
    before: T,
    after: T,
) -> bool {
    exists|value: &str, id: &AppId|
        #![trigger call_ensures(P::parse, (&parsers[found.key].1, value, id, before), after)]
        value@ == found.value && *id == found.app_id && call_ensures(
            P::parse,
            (&parsers[found.key].1, value, id, before),
            after,
        )
}

/// Handing the values of `found`, one after the other, each to its parser,
/// may turn the accumulator `start` into `end`.
pub open spec fn parses_all<T, P: KeyParser<T>>(
    parsers: Seq<(&str, P)>,
    found: Seq<KeyValue>,
    start: T,
    end: T,
) -> bool
    decreases found.len(),
{
    if found.len() == 0 {
        end == start
    } else {
        exists|mid: T|
            parses_all(parsers, found.drop_last(), start, mid) && #[trigger] parses_one(
                parsers,
                found.last(),
                mid,
                end,
            )
    }
}

/// Two runs of parsers, the second from where the first ended, make one run
/// over all the values.
pub proof fn lemma_parses_all_concat<T, P: KeyParser<T>>(
    parsers: Seq<(&str, P)>,
    first: Seq<KeyValue>,
    second: Seq<KeyValue>,
    start: T,
    mid: T,
    end: T,
)
    requires
        parses_all(parsers, first, start, mid),
        parses_all(parsers, second, mid, end),
    ensures
        parses_all(parsers, first + second, start, end),
    decreases second.len(),
{
    if second.len() == 0 {
        assert(first + second =~= first);
    } else {
        let m = choose|m: T|
            parses_all(parsers, second.drop_last(), mid, m) && #[trigger] parses_one(
                parsers,
                second.last(),
                m,
                end,
            );
        lemma_parses_all_concat(parsers, first, second.drop_last(), start, mid, m);
        assert((first + second).drop_last() =~= first + second.drop_last());
        assert((first + second).last() == second.last());
    }
}

/// Whether `found` is a value that a scan of the keys `keys` under the
/// whitelist `whitelist` can give: it names a key of the table and an
/// application that the scan tracks, and it is not empty.
pub open spec fn is_sound(found: KeyValue, keys: Seq<Seq<char>>, whitelist: Option<Seq<AppId>>) -> bool {
    &&& 0 <= found.key < keys.len()
    &&& tracks(whitelist, found.app_id)
    &&& found.value.len() > 0
}

/// A quote's index lies in the line, at or after the index from which it
/// was looked for.
pub proof fn lemma_quote_index_bounds(t: Seq<char>, from: int, n: nat)
    requires
        0 <= from,
    ensures
        quote_index(t, from, n) <= t.len(),
        from <= quote_index(t, from, n) || quote_index(t, from, n) == t.len(),
        quote_index(t, from, n) < t.len() ==> t[quote_index(t, from, n)] == '"',
    decreases t.len() - from,
{
    if from < t.len() && n != 0 {
        if t[from] == '"' {
            if n != 1 {
                lemma_quote_index_bounds(t, from + 1, (n - 1) as nat);
            }
        } else {
            lemma_quote_index_bounds(t, from + 1, n);
        }
    }
}

/// Every value that one line gives is sound.
pub proof fn lemma_line_values_sound(
    t: Seq<char>,
    keys: Seq<Seq<char>>,
    id: AppId,
    n: int,
    whitelist: Option<Seq<AppId>>,
)
    requires
        n <= keys.len(),
        tracks(whitelist, id),
    ensures
        forall|i: int|
            0 <= i < line_values(t, keys, id, n).len() ==> is_sound(
                #[trigger] line_values(t, keys, id, n)[i],
                keys,
                whitelist,
            ),
    decreases n,
{
    if n > 0 {
        lemma_line_values_sound(t, keys, id, n - 1, whitelist);
        lemma_quote_index_bounds(t, 0, 3);
        let before = line_values(t, keys, id, n - 1);
        let all = line_values(t, keys, id, n);
        assert forall|i: int| 0 <= i < all.len() implies is_sound(
            #[trigger] all[i],
            keys,
            whitelist,
        ) by {
            if i < before.len() {
                assert(all[i] == before[i]);
            }
        }
    }
}

/// A scan tracks no application outside the whitelist, and every value it
/// finds is sound.
pub proof fn lemma_scanned_sound(
    lines: Seq<Seq<char>>,
    start: int,
    n: int,
    keys: Seq<Seq<char>>,
    whitelist: Option<Seq<AppId>>,
)
    ensures
        match scanned(lines, start, n, keys, whitelist).app_id {
            Some(id) => tracks(whitelist, id),
            None => true,
        },
        forall|i: int|
            0 <= i < scanned(lines, start, n, keys, whitelist).found.len() ==> is_sound(
                #[trigger] scanned(lines, start, n, keys, whitelist).found[i],
                keys,
                whitelist,
            ),
    decreases n,
{
    if n > 0 {
        lemma_scanned_sound(lines, start, n - 1, keys, whitelist);
        let before = scanned(lines, start, n - 1, keys, whitelist);
        if before.depth >= 0 && 0 <= start + n - 1 < lines.len() {
            match before.app_id {
                Some(id) => {
                    lemma_line_values_sound(
                        trimmed(lines[start + n - 1]),
                        keys,
                        id,
                        keys.len() as int,
                        whitelist,
                    );
                },
                None => {},
            }
        }
    }
}

/// Every value that a file gives is sound: the whitelist bounds the
/// applications of the result.
pub proof fn lemma_key_values_sound(
    section: Seq<char>,
    lines: Seq<Seq<char>>,
    keys: Seq<Seq<char>>,
    whitelist: Option<Seq<AppId>>,
)
    ensures
        forall|i: int|
            0 <= i < key_values(section, lines, keys, whitelist).len() ==> is_sound(
                #[trigger] key_values(section, lines, keys, whitelist)[i],
                keys,
                whitelist,
            ),
{
    let start = header_index(lines, section, 0) + 2;
    lemma_scanned_sound(lines, start, lines.len() - start, keys, whitelist);
}

/// Two texts that are the same up to the case of their ASCII letters are
/// the same, up to that case, as the same third texts.
pub proof fn lemma_same_ignoring_ascii_case(a: Seq<char>, b: Seq<char>, c: Seq<char>)
    requires
        same_ignoring_ascii_case(a, b),
    ensures
        same_ignoring_ascii_case(b, a),
        same_ignoring_ascii_case(c, a) == same_ignoring_ascii_case(c, b),
        same_ignoring_ascii_case(quoted(a), quoted(b)),
{
    assert(same_ignoring_ascii_case(quoted(a), quoted(b))) by {
        assert forall|i: int| 0 <= i < quoted(a).len() implies crate::text::ascii_folded(
            #[trigger] quoted(a)[i],
        ) == crate::text::ascii_folded(quoted(b)[i]) by {
            if 0 < i <= a.len() {
                assert(quoted(a)[i] == a[i - 1]);
                assert(quoted(b)[i] == b[i - 1]);
            }
        }
    }
    if same_ignoring_ascii_case(c, a) {
        assert forall|i: int| 0 <= i < c.len() implies crate::text::ascii_folded(#[trigger] c[i])
            == crate::text::ascii_folded(b[i]) by {
            assert(crate::text::ascii_folded(a[i]) == crate::text::ascii_folded(b[i]));
        }
    }
    if same_ignoring_ascii_case(c, b) {
        assert forall|i: int| 0 <= i < c.len() implies crate::text::ascii_folded(#[trigger] c[i])
            == crate::text::ascii_folded(a[i]) by {
            assert(crate::text::ascii_folded(a[i]) == crate::text::ascii_folded(b[i]));
        }
    }
}

/// The header of a section is found whatever the case of the ASCII letters
/// of the section's name.
pub proof fn lemma_header_ignores_case(
    lines: Seq<Seq<char>>,
    section: Seq<char>,
    other: Seq<char>,
    from: int,
)
    requires
        same_ignoring_ascii_case(section, other),
    ensures
        header_index(lines, section, from) == header_index(lines, other, from),
    decreases lines.len() - from,
{
    if 0 <= from < lines.len() {
        lemma_same_ignoring_ascii_case(section, other, Seq::empty());
        lemma_same_ignoring_ascii_case(quoted(section), quoted(other), trimmed(lines[from]));
        if !is_header(lines[from], section) {
            lemma_header_ignores_case(lines, section, other, from + 1);
        }
    }
}

/// A line gives the same values for two tables whose keys are the same in
/// lower case.
pub proof fn lemma_line_ignores_case(
    t: Seq<char>,
    keys: Seq<Seq<char>>,
    others: Seq<Seq<char>>,
    id: AppId,
    n: int,
)
    requires
        n <= keys.len() == others.len(),
        forall|k: int|
            0 <= k < keys.len() ==> lowercase_of(#[trigger] keys[k]) == lowercase_of(others[k]),
    ensures
        line_values(t, keys, id, n) == line_values(t, others, id, n),
    decreases n,
{
    if n > 0 {
        lemma_line_ignores_case(t, keys, others, id, n - 1);
        assert(lowercase_of(keys[n - 1]) == lowercase_of(others[n - 1]));
    }
}

/// A scan finds the same for two tables whose keys are the same in lower
/// case.
pub proof fn lemma_scan_ignores_case(
    lines: Seq<Seq<char>>,
    start: int,
    n: int,
    keys: Seq<Seq<char>>,
    others: Seq<Seq<char>>,
    whitelist: Option<Seq<AppId>>,
)
    requires
        keys.len() == others.len(),
        forall|k: int|
            0 <= k < keys.len() ==> lowercase_of(#[trigger] keys[k]) == lowercase_of(others[k]),
    ensures
        scanned(lines, start, n, keys, whitelist) == scanned(lines, start, n, others, whitelist),
    decreases n,
{
    if n > 0 {
        lemma_scan_ignores_case(lines, start, n - 1, keys, others, whitelist);
        let before = scanned(lines, start, n - 1, keys, whitelist);
        if before.depth >= 0 && 0 <= start + n - 1 < lines.len() {
            match before.app_id {
                Some(id) => {
                    lemma_line_ignores_case(
                        trimmed(lines[start + n - 1]),
                        keys,
                        others,
                        id,
                        keys.len() as int,
                    );
                },
                None => {},
            }
        }
    }
}

/// Sections and keys are matched without regard to case: a file gives the
/// same values for two sections whose names are the same up to the case of
/// their ASCII letters, and for two tables whose keys are the same in lower
/// case.
pub proof fn lemma_matching_ignores_case(
    section: Seq<char>,
    other_section: Seq<char>,
    lines: Seq<Seq<char>>,
    keys: Seq<Seq<char>>,
    other_keys: Seq<Seq<char>>,
    whitelist: Option<Seq<AppId>>,
)
    requires
        same_ignoring_ascii_case(section, other_section),
        keys.len() == other_keys.len(),
        forall|k: int|
            0 <= k < keys.len() ==> lowercase_of(#[trigger] keys[k]) == lowercase_of(
                other_keys[k],
            ),
    ensures
        key_values(section, lines, keys, whitelist) == key_values(
            other_section,
            lines,
            other_keys,
            whitelist,
        ),
{
    lemma_header_ignores_case(lines, section, other_section, 0);
    let start = header_index(lines, section, 0) + 2;
    lemma_scan_ignores_case(lines, start, lines.len() - start, keys, other_keys, whitelist);
}

/// A scan that has left its section stays as it is.
pub proof fn lemma_scanned_rests(
    lines: Seq<Seq<char>>,
    start: int,
    n: int,
    m: int,
    keys: Seq<Seq<char>>,
    whitelist: Option<Seq<AppId>>,
)
    requires
        0 <= n <= m,
        scanned(lines, start, n, keys, whitelist).depth < 0 || start + n >= lines.len(),
        0 <= start,
    ensures
        scanned(lines, start, m, keys, whitelist) == scanned(lines, start, n, keys, whitelist),
    decreases m - n,
{
    if n < m {
        lemma_scanned_rests(lines, start, n, m - 1, keys, whitelist);
    }
}

/// The index of the third double quote of `t`, or its length.
fn third_quote(t: &Vec<char>) -> (q: usize)
    ensures
        q == quote_index(t@, 0, 3),
        q <= t.len(),
{
    let mut i: usize = 0;
    let mut left: u8 = 3;
    while i < t.len()
        invariant
            i <= t.len(),
            1 <= left <= 3,
            quote_index(t@, 0, 3) == quote_index(t@, i as int, left as nat),
        decreases t.len() - i,
    {
        if t[i] == '"' {
            if left == 1 {
                return i;
            }
            left -= 1;
        }
        i += 1;
    }
    i
}

/// The value of the key line `t`.
pub fn value_of(t: &Vec<char>) -> (value: Option<String>)
    ensures
        match value {
            Some(v) => value_field(t@) == Some(v@),
            None => value_field(t@) is None,
        },
{
    let q = third_quote(t);
    if t.len() >= 2 && q < t.len() - 2 {
        Some(string_of(t, q + 1, t.len() - 1))
    } else {
        None
    }
}

/// The index of the first header of `section` among the lines, or their
/// number.
fn find_header(section: &str, config_lines: &Vec<String>) -> (h: usize)
    ensures
        h == header_index(texts(config_lines@), section@, 0),
        h <= config_lines.len(),
{
    let header = quote(&chars_of(section));
    let mut i: usize = 0;
    while i < config_lines.len()
        invariant
            i <= config_lines.len(),
            header@ == quoted(section@),
            header_index(texts(config_lines@), section@, 0) == header_index(
                texts(config_lines@),
                section@,
                i as int,
            ),
        decreases config_lines.len() - i,
    {
        let line = trim(&chars_of(config_lines[i].as_str()));
        if eq_ignore_ascii_case(&line, &header) {
            return i;
        }
        i += 1;
    }
    i
}

/// Each key of the table in lower case and between double quotes.
fn lowered_keys<P>(key_parsers: &Vec<(&str, P)>) -> (lowered: Vec<Vec<char>>)
    ensures
        lowered.len() == key_parsers.len(),
        forall|k: int|
            0 <= k < lowered.len() ==> (#[trigger] lowered[k])@ == quoted(
                lowercase_of(key_parsers[k].0@),
            ),
{
    let mut lowered: Vec<Vec<char>> = Vec::new();
    let mut k: usize = 0;
    while k < key_parsers.len()
        invariant
            k <= key_parsers.len(),
            lowered.len() == k,
            forall|j: int|
                0 <= j < k ==> (#[trigger] lowered[j])@ == quoted(lowercase_of(key_parsers[j].0@)),
        decreases key_parsers.len() - k,
    {
        let key = key_parsers[k].0.to_lowercase();
        lowered.push(quote(&chars_of(key.as_str())));
        k += 1;
    }
    lowered
}

/// Hands the value of the key line `t` to the parser of each key that the
/// line is a line of. `lowered` holds the keys as `lowered_keys` gives them.
fn parse_line<T, P: KeyParser<T>>(
    t: &Vec<char>,
    key_parsers: &Vec<(&str, P)>,
    lowered: &Vec<Vec<char>>,
    app_id: AppId,
    acc: T,
) -> (result: T)
    requires
        lowered.len() == key_parsers.len(),
        forall|k: int|
            0 <= k < lowered.len() ==> (#[trigger] lowered[k])@ == quoted(
                lowercase_of(key_parsers[k].0@),
            ),
    ensures
        parses_all(
            key_parsers@,
            line_values(t@, key_names(key_parsers@), app_id, key_parsers.len() as int),
            acc,
            result,
        ),
{
    let ghost start = acc;
    let ghost keys = key_names(key_parsers@);
    let mut result = acc;
    let value = value_of(t);
    let line = chars_of(string_of(t, 0, t.len()).to_lowercase().as_str());
    assert(t@.subrange(0, t.len() as int) =~= t@);
    let mut k: usize = 0;
    while k < key_parsers.len()
        invariant
            k <= key_parsers.len() == lowered.len(),
            keys == key_names(key_parsers@),
            line@ == lowercase_of(t@),
            forall|j: int|
                0 <= j < lowered.len() ==> (#[trigger] lowered[j])@ == quoted(
                    lowercase_of(key_parsers[j].0@),
                ),
            match value {
                Some(v) => value_field(t@) == Some(v@),
                None => value_field(t@) is None,
            },
            parses_all(key_parsers@, line_values(t@, keys, app_id, k as int), start, result),
        decreases key_parsers.len() - k,
    {
        let ghost before = line_values(t@, keys, app_id, k as int);
        let ghost after = line_values(t@, keys, app_id, k + 1);
        assert(names_key(t@, keys[k as int]) == lowered[k as int]@.is_prefix_of(line@));
        if starts_with(&line, &lowered[k]) {
            if let Some(v) = &value {
                let ghost mid = result;
                result = key_parsers[k].1.parse(v.as_str(), &app_id, result);
                proof {
                    let found = KeyValue { key: k as int, app_id, value: v@ };
                    assert(after == before.push(found));
                    assert(after.drop_last() =~= before);
                    assert(after.last() == found);
                    assert(parses_one(key_parsers@, found, mid, result));
                }
            }
        }
        k += 1;
    }
    result
}

/// Whether `t` is the one character `c`.
fn is_only(t: &Vec<char>, c: char) -> (b: bool)
    ensures
        b == (t@ == seq![c]),
{
    if t.len() == 1 && t[0] == c {
        assert(t@ =~= seq![c]);
        true
    } else {
        assert(seq![c].len() == 1 && seq![c][0] == c);
        false
    }
}

/// Whether the scan may take `id` as its current application.
fn is_tracked(whitelist: Option<&Vec<AppId>>, id: AppId) -> (b: bool)
    ensures
        b == tracks(listed(whitelist), id),
{
    match whitelist {
        Some(ids) => contains_id(ids, id),
        None => true,
    }
}

/// Scans the section `section` of a text VDF file for the keys of
/// `key_parsers` and hands each value found, with the id of its application,
/// to the key's parser, in file order. The accumulator starts from its
/// default value, goes through every call and is returned after the last: a
/// file without the section returns the default.
///
/// With a whitelist, the applications outside it are passed over.
pub fn parse_vdf_keys<T: Default, P: KeyParser<T>>(
    section: &str,
    config_lines: &Vec<String>,
    key_parsers: &Vec<(&str, P)>,
    whitelist: Option<&Vec<AppId>>,
) -> (result: T)
    ensures
        exists|start: T| #[trigger]
            call_ensures(T::default, (), start) && parses_all(
                key_parsers@,
                key_values(
                    section@,
                    texts(config_lines@),
                    key_names(key_parsers@),
                    listed(whitelist),
                ),
                start,
                result,
            ),
{
    let header = find_header(section, config_lines);
    let mut result = T::default();
    let ghost start = result;
    let ghost lines = texts(config_lines@);
    let ghost keys = key_names(key_parsers@);
    let ghost ids = listed(whitelist);
    if config_lines.len() - header <= 2 {
        return result;
    }
    let lowered = lowered_keys(key_parsers);
    let first: usize = header + 2;
    let mut i: usize = first;
    let mut depth: usize = 0;
    let mut app_id: Option<AppId> = None;
    let mut inside = true;
    let ghost mut scan = Scan { depth: 0, app_id: None, found: Seq::empty() };
    while inside && i < config_lines.len()
        invariant
            first <= i <= config_lines.len(),
            lines == texts(config_lines@),
            keys == key_names(key_parsers@),
            ids == listed(whitelist),
            lowered.len() == key_parsers.len(),
            forall|k: int|
                0 <= k < lowered.len() ==> (#[trigger] lowered[k])@ == quoted(
                    lowercase_of(key_parsers[k].0@),
                ),
            scan == scanned(lines, first as int, i - first, keys, ids),
            inside ==> scan.depth == depth && depth <= i - first,
            !inside ==> scan.depth < 0,
            scan.app_id == app_id,
            parses_all(key_parsers@, scan.found, start, result),
        decreases config_lines.len() - i,
    {
        let t = trim(&chars_of(config_lines[i].as_str()));
        let ghost next = scan_line(scan, t@, keys, ids);
        assert(scanned(lines, first as int, i + 1 - first, keys, ids) == next);
        if is_only(&t, '{') {
            depth += 1;
        } else if is_only(&t, '}') {
            if depth == 0 {
                inside = false;
            } else {
                depth -= 1;
            }
            app_id = None;
        } else {
            match parse_u64(&trim_quotes(&t)) {
                Some(n) => {
                    app_id = if is_tracked(whitelist, AppId(n)) {
                        Some(AppId(n))
                    } else {
                        None
                    };
                },
                None => {
                    if let Some(id) = app_id {
                        let ghost before = result;
                        result = parse_line(&t, key_parsers, &lowered, id, result);
                        proof {
                            lemma_parses_all_concat(
                                key_parsers@,
                                scan.found,
                                line_values(t@, keys, id, keys.len() as int),
                                start,
                                before,
                                result,
                            );
                        }
                    }
                },
            }
        }
        proof {
            scan = next;
        }
        i += 1;
    }
    proof {
        lemma_scanned_rests(
            lines,
            first as int,
            i - first,
            config_lines.len() - first,
            keys,
            ids,
        );
    }
    result
}

} // verus!
