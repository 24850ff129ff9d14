//! The names under which the accounts show, as the file of the logged-in
//! users says them.

use vstd::prelude::*;
use crate::decimal::{decimal, u64_to_string};
use crate::steam::text_vdf::texts;
use crate::steam::SteamId64;
use crate::text::{chars_of, quote, quoted, same_chars, starts_with, string_of, trim_start, trimmed_start};

verus! {

/// Whether `line` opens the block of the account `id`: behind the
/// whitespace before it stands the id between double quotes and nothing
/// else.
pub open spec fn is_user_line(line: Seq<char>, id: SteamId64) -> bool {
    trimmed_start(line) == quoted(decimal(id.0 as nat))
}

/// What a line that holds the name of an account begins with.
pub open spec fn persona_key() -> Seq<char> {
    seq!['"', 'P', 'e', 'r', 's', 'o', 'n', 'a', 'N', 'a', 'm', 'e']
}

/// Whether `line` holds the name of an account.
pub open spec fn is_persona_line(line: Seq<char>) -> bool {
    persona_key().is_prefix_of(trimmed_start(line))
}

/// The index of the first line at or after `from` that opens the block of
/// `id`, or the number of lines.
pub open spec fn user_line(lines: Seq<Seq<char>>, id: SteamId64, from: int) -> int
    decreases lines.len() - from,
{
    if 0 <= from < lines.len() && !is_user_line(lines[from], id) {
        user_line(lines, id, from + 1)
    } else {
        from
    }
}

/// The index of the first line at or after `from` that holds a name, or the
/// number of lines.
pub open spec fn persona_line(lines: Seq<Seq<char>>, from: int) -> int
    decreases lines.len() - from,
{
    if 0 <= from < lines.len() && !is_persona_line(lines[from]) {
        persona_line(lines, from + 1)
    } else {
        from
    }
}

/// The index behind the last double quote of `t[..n]`, or 0 where it has
/// none.
pub open spec fn after_last_quote(t: Seq<char>, n: int) -> int
    decreases n,
{
    if n <= 0 || n > t.len() {
        0
    } else if t[n - 1] == '"' {
        n
    } else {
        after_last_quote(t, n - 1)
    }
}

/// The last field that the double quotes cut `line` into, a quote at the end
/// of the line closing a field and not opening an empty one.
pub open spec fn last_field(line: Seq<char>) -> Seq<char> {
    let end = if line.len() > 0 && line.last() == '"' {
        line.len() - 1
    } else {
        line.len() as int
    };
    line.subrange(after_last_quote(line, end), end)
}

/// The name under which the account `id` shows: the last field of the first
/// line that holds a name at or after the line that opens the account's
/// block. An account without such lines shows under its id.
pub open spec fn display_name(id: SteamId64, lines: Seq<Seq<char>>) -> Seq<char> {
    let at = persona_line(lines, user_line(lines, id, 0));
    if 0 <= at < lines.len() {
        last_field(lines[at])
    } else {
        decimal(id.0 as nat)
    }
}

/// The last field of `line`.
fn last_field_of(line: &Vec<char>) -> (field: String)
    ensures
        field@ == last_field(line@),
{
    let end: usize = if line.len() > 0 && line[line.len() - 1] == '"' {
        line.len() - 1
    } else {
        line.len()
    };
    let mut n: usize = end;
    while n > 0 && line[n - 1] != '"'
        invariant
            n <= end <= line.len(),
            after_last_quote(line@, end as int) == after_last_quote(line@, n as int),
        decreases n,
    {
        n -= 1;
    }
    string_of(line, n, end)
}

/// Looks the name of the account `id` up in the lines of the file of the
/// logged-in users.
pub fn parse_display_name(id: &SteamId64, config_lines: &Vec<String>) -> (name: String)
    ensures
        name@ == display_name(*id, texts(config_lines@)),
{
    let ghost lines = texts(config_lines@);
    let header = quote(&chars_of(u64_to_string(id.0).as_str()));
    let mut i: usize = 0;
    while i < config_lines.len()
        invariant
            i <= config_lines.len(),
            lines == texts(config_lines@),
            header@ == quoted(decimal(id.0 as nat)),
            user_line(lines, *id, 0) == user_line(lines, *id, i as int),
        ensures
            i <= config_lines.len(),
            i == user_line(lines, *id, 0),
        decreases config_lines.len() - i,
    {
        let line = trim_start(&chars_of(config_lines[i].as_str()));
        if same_chars(&line, &header) {
            break;
        }
        i += 1;
    }
    let mut key: Vec<char> = Vec::new();
    key.push('"');
    key.push('P');
    key.push('e');
    key.push('r');
    key.push('s');
    key.push('o');
    key.push('n');
    key.push('a');
    key.push('N');
    key.push('a');
    key.push('m');
    key.push('e');
    assert(key@ =~= persona_key());
    let ghost from = i;
    while i < config_lines.len()
        invariant
            from <= i <= config_lines.len(),
            lines == texts(config_lines@),
            key@ == persona_key(),
            from == user_line(lines, *id, 0),
            persona_line(lines, from as int) == persona_line(lines, i as int),
        decreases config_lines.len() - i,
    {
        let line = chars_of(config_lines[i].as_str());
        if starts_with(&trim_start(&line), &key) {
            return last_field_of(&line);
        }
        i += 1;
    }
    u64_to_string(id.0)
}

} // verus!
