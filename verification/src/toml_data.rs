//! TOML documents as the data files use them.

use vstd::prelude::*;
use vstd::string::*;

use crate::fields::{distinct_keys, map_of};
use crate::text::views;
use serde::de::IgnoredAny;
use std::collections::BTreeMap;

verus! {

/// A value of a TOML document.
#[verifier::external_type_specification]
#[verifier::external_body]
pub struct ExTomlValue(toml::Value);

/// Why a text is not a TOML document.
#[verifier::external_type_specification]
#[verifier::external_body]
pub struct ExTomlError(toml::de::Error);

/// What a TOML value holds, as far as the data files use it.
pub enum TomlView {
    Text(Seq<char>),
    Array(Seq<TomlView>),
    Table(Map<Seq<char>, TomlView>),
    Other,
}

/// A TOML value taken apart by one level.
pub enum TomlNode {
    Text(String),
    Array(Vec<toml::Value>),
    Table(Vec<(String, toml::Value)>),
    Other,
}

/// What a TOML value holds.
pub uninterp spec fn toml_view(value: toml::Value) -> TomlView;

/// What the TOML document with a text holds, `None` where the text is no TOML
/// document.
pub uninterp spec fn toml_document(text: Seq<char>) -> Option<TomlView>;

/// The lists of records that the TOML document with a text holds, by their
/// keys, `None` where the text is no document or holds anything besides such
/// lists.
pub uninterp spec fn toml_lists(text: Seq<char>) -> Option<Map<Seq<char>, Seq<Map<Seq<char>, Seq<char>>>>>;

/// The keys of the TOML document with a text, `None` where the text is no TOML
/// document.
pub uninterp spec fn toml_keys(text: Seq<char>) -> Option<Set<Seq<char>>>;

/// The table that a list of entries makes up.
pub open spec fn table_of(entries: Seq<(String, toml::Value)>) -> Map<Seq<char>, TomlView>
    decreases entries.len(),
{
    if entries.len() == 0 {
        Map::empty()
    } else {
        table_of(entries.drop_last()).insert(
            entries.last().0@,
            toml_view(entries.last().1),
        )
    }
}

/// No two entries have one key.
pub open spec fn distinct_entries(entries: Seq<(String, toml::Value)>) -> bool {
    forall|i: int, j: int|
        0 <= i < j < entries.len() ==> (#[trigger] entries[i]).0@ != (#[trigger] entries[j]).0@
}

/// A character that needs no quotes in a key.
pub open spec fn is_bare(c: char) -> bool {
    ('a' <= c && c <= 'z') || ('A' <= c && c <= 'Z') || ('0' <= c && c <= '9') || c == '_' || c
        == '-'
}

/// A key that needs no quotes.
pub open spec fn is_bare_key(key: Seq<char>) -> bool {
    key.len() > 0 && forall|i: int| 0 <= i < key.len() ==> is_bare(#[trigger] key[i])
}

/// A control character that cannot stand in a string as it is.
pub open spec fn is_control(c: char) -> bool {
    (c < ' ' && c != '\t') || c == '\u{7f}'
}

/// The hexadecimal digit for a number below sixteen.
pub open spec fn hex_digit(d: int) -> char {
    if d < 10 {
        (48 + d) as char
    } else {
        (55 + d) as char
    }
}

/// A character as it stands between the quotes of a string.
pub open spec fn escaped_char(c: char) -> Seq<char> {
    if c == '\\' {
        seq!['\\', '\\']
    } else if c == '"' {
        seq!['\\', '"']
    } else if is_control(c) {
        seq!['\\', 'u', '0', '0', hex_digit(c as int / 16), hex_digit(c as int % 16)]
    } else {
        seq![c]
    }
}

/// A text as it stands between the quotes of a string.
pub open spec fn escaped(text: Seq<char>) -> Seq<char>
    decreases text.len(),
{
    if text.len() == 0 {
        Seq::empty()
    } else {
        escaped(text.drop_last()) + escaped_char(text.last())
    }
}

/// A key as it stands in a line: in quotes, unless it needs none.
pub open spec fn key_text(key: Seq<char>) -> Seq<char> {
    if is_bare_key(key) {
        key
    } else {
        "\""@ + escaped(key) + "\""@
    }
}

/// `<key> = "<value>"` and the end of the line.
pub open spec fn kv_line(key: Seq<char>, value: Seq<char>) -> Seq<char> {
    key_text(key) + " = \""@ + escaped(value) + "\"\n"@
}

/// The lines for a list of keys and values.
pub open spec fn kv_lines(entries: Seq<(Seq<char>, Seq<char>)>) -> Seq<char>
    decreases entries.len(),
{
    if entries.len() == 0 {
        Seq::empty()
    } else {
        kv_lines(entries.drop_last()) + kv_line(entries.last().0, entries.last().1)
    }
}

/// A record of a data file: its header, its lines, and an empty line.
pub open spec fn record_text(entries: Seq<(Seq<char>, Seq<char>)>) -> Seq<char> {
    "[[records]]\n"@ + kv_lines(entries) + "\n"@
}

/// The comment at the top of a data file.
pub open spec fn file_header() -> Seq<char> {
    "# Exported by Archive Manager – re-importable with File > Import\n\n"@
}

/// The text of a data file with some records.
pub open spec fn document_text(records: Seq<Seq<(Seq<char>, Seq<char>)>>) -> Seq<char>
    decreases records.len(),
{
    if records.len() == 0 {
        file_header()
    } else {
        document_text(records.drop_last()) + record_text(records.last())
    }
}

/// The key that the parser keeps for dates and times: a table that begins with
/// it is taken for one of these.
pub open spec fn moment_key() -> Seq<char> {
    "$__toml_private_datetime"@
}

/// Whether no record has one key twice.
pub open spec fn all_distinct(records: Seq<Seq<(Seq<char>, Seq<char>)>>) -> bool {
    forall|i: int| 0 <= i < records.len() ==> distinct_keys(#[trigger] records[i])
}

/// The records of a data file, each by its keys.
pub open spec fn record_maps(records: Seq<Seq<(Seq<char>, Seq<char>)>>) -> Seq<
    Map<Seq<char>, Seq<char>>,
> {
    records.map_values(|r: Seq<(Seq<char>, Seq<char>)>| map_of(r))
}

/// The lists of records that a data file with some records holds: the one
/// under `records`, left out where there are none.
pub open spec fn document_lists(records: Seq<Seq<(Seq<char>, Seq<char>)>>) -> Map<
    Seq<char>,
    Seq<Map<Seq<char>, Seq<char>>>,
> {
    if records.len() == 0 {
        Map::empty()
    } else {
        Map::empty().insert("records"@, record_maps(records))
    }
}

/// What the result of a parse holds.
pub open spec fn parsed(result: Result<toml::Value, toml::de::Error>) -> Option<TomlView> {
    match result {
        Ok(value) => Some(toml_view(value)),
        Err(_) => None,
    }
}

/// The record that a list of entries makes up.
pub open spec fn entry_map(entries: Seq<(String, String)>) -> Map<Seq<char>, Seq<char>> {
    map_of(entries.map_values(|e: (String, String)| (e.0@, e.1@)))
}

/// The records that some lists of entries make up.
pub open spec fn entry_maps(records: Seq<Vec<(String, String)>>) -> Seq<
    Map<Seq<char>, Seq<char>>,
> {
    records.map_values(|r: Vec<(String, String)>| entry_map(r@))
}

/// The lists of records by their keys.
pub open spec fn lists_of(lists: Seq<(String, Vec<Vec<(String, String)>>)>) -> Map<
    Seq<char>,
    Seq<Map<Seq<char>, Seq<char>>>,
>
    decreases lists.len(),
{
    if lists.len() == 0 {
        Map::empty()
    } else {
        lists_of(lists.drop_last()).insert(lists.last().0@, entry_maps(lists.last().1@))
    }
}

/// What the result of a parse into lists of records holds.
pub open spec fn parsed_lists(
    result: Result<Vec<(String, Vec<Vec<(String, String)>>)>, toml::de::Error>,
) -> Option<Map<Seq<char>, Seq<Map<Seq<char>, Seq<char>>>>> {
    match result {
        Ok(lists) => Some(lists_of(lists@)),
        Err(_) => None,
    }
}

/// What the result of a parse into keys holds.
pub open spec fn parsed_keys(result: Result<Vec<String>, toml::de::Error>) -> Option<
    Set<Seq<char>>,
> {
    match result {
        Ok(keys) => Some(views(keys@).to_set()),
        Err(_) => None,
    }
}

/// Whether `lists` are the records of which `text` is the data file, where it
/// is one.
pub open spec fn reads_data_file(
    text: Seq<char>,
    lists: Option<Map<Seq<char>, Seq<Map<Seq<char>, Seq<char>>>>>,
) -> bool {
    forall|records: Seq<Seq<(Seq<char>, Seq<char>)>>|
        text == #[trigger] document_text(records) && all_distinct(records) ==> lists == Some(
            document_lists(records),
        )
}

/// A table with one text.
pub open spec fn line_view(key: Seq<char>, value: Seq<char>) -> TomlView {
    TomlView::Table(Map::empty().insert(key, TomlView::Text(value)))
}

/// Whether `document` holds the one entry of which `text` is the line, where
/// it is one.
pub open spec fn reads_line(text: Seq<char>, document: Option<TomlView>) -> bool {
    forall|key: Seq<char>, value: Seq<char>|
        text == #[trigger] kv_line(key, value) && key != moment_key() ==> document == Some(
            line_view(key, value),
        )
}

/// `toml::from_str` for lists of maps of strings: the document that a text
/// holds, an error where it holds anything besides such lists.
///
/// Of a text in the form of a data file the grammar of TOML gives the document.
/// There is a map for each header of an array of tables, in order. Each line
/// sets a key to a string. The key is bare, or a string itself, and both are
/// read with their escapes undone.
#[verifier::external_body]
pub(crate) fn parse_lists(raw: &str) -> (result: Result<
    Vec<(String, Vec<Vec<(String, String)>>)>,
    toml::de::Error,
>)
    ensures
        parsed_lists(result) == toml_lists(raw@),
        reads_data_file(raw@, parsed_lists(result)),
{
    let lists = toml::from_str::<BTreeMap<String, Vec<BTreeMap<String, String>>>>(raw)?;
    Ok(
        lists.into_iter().map(
            |(key, list)|
                (key, list.into_iter().map(|record| record.into_iter().collect()).collect()),
        ).collect(),
    )
}

/// `toml::from_str` for a map to `serde::de::IgnoredAny`: the keys of the
/// document that a text holds, whatever stands under them.
#[verifier::external_body]
pub(crate) fn parse_keys(raw: &str) -> (result: Result<Vec<String>, toml::de::Error>)
    ensures
        parsed_keys(result) == toml_keys(raw@),
{
    let document = toml::from_str::<BTreeMap<String, IgnoredAny>>(raw)?;
    Ok(document.into_keys().collect())
}

/// `toml::from_str` for a `toml::Value`: the document that a text holds.
///
/// Of a line of a data file by itself the grammar of TOML gives the document,
/// as it does for [`parse_lists`]. A `toml::Value` takes a table that begins
/// with the key for dates and times for one of these.
#[verifier::external_body]
pub(crate) fn parse_toml(raw: &str) -> (result: Result<toml::Value, toml::de::Error>)
    ensures
        parsed(result) == toml_document(raw@),
        reads_line(raw@, parsed(result)),
{
    toml::from_str::<toml::Value>(raw)
}

/// The variants of `toml::Value`: a string, the elements of an array, the
/// entries of a table, whose keys are distinct, or anything else.
#[verifier::external_body]
pub(crate) fn open_value(value: &toml::Value) -> (node: TomlNode)
    ensures
        match node {
            TomlNode::Text(text) => toml_view(*value) == TomlView::Text(text@),
            TomlNode::Array(items) => toml_view(*value) == TomlView::Array(
                items@.map_values(|v: toml::Value| toml_view(v)),
            ),
            TomlNode::Table(entries) => {
                &&& toml_view(*value) == TomlView::Table(table_of(entries@))
                &&& distinct_entries(entries@)
            },
            TomlNode::Other => toml_view(*value) == TomlView::Other,
        },
{
    match value.clone() {
        toml::Value::String(text) => TomlNode::Text(text),
        toml::Value::Array(items) => TomlNode::Array(items),
        toml::Value::Table(entries) => TomlNode::Table(entries.into_iter().collect()),
        toml::Value::Integer(_) => TomlNode::Other,
        toml::Value::Float(_) => TomlNode::Other,
        toml::Value::Boolean(_) => TomlNode::Other,
        toml::Value::Datetime(_) => TomlNode::Other,
    }
}

/// The number for a hexadecimal digit.
pub open spec fn hex_value(c: char) -> int {
    if c <= '9' {
        c as int - 48
    } else if c <= 'F' {
        c as int - 55
    } else {
        c as int - 87
    }
}

/// The character for four hexadecimal digits.
pub open spec fn hex_char(a: char, b: char, c: char, d: char) -> char {
    (((hex_value(a) * 16 + hex_value(b)) * 16 + hex_value(c)) * 16 + hex_value(d)) as char
}

/// Undoes the escapes of a string: a backslash and a `u` stand for the
/// character with the four digits after them, any other backslash stands for
/// the character after it.
pub open spec fn unescaped(text: Seq<char>) -> Seq<char>
    decreases text.len(),
{
    if text.len() == 0 {
        Seq::empty()
    } else if text[0] == '\\' && text.len() >= 6 && text[1] == 'u' {
        seq![hex_char(text[2], text[3], text[4], text[5])] + unescaped(text.skip(6))
    } else if text[0] == '\\' && text.len() > 1 {
        seq![text[1]] + unescaped(text.skip(2))
    } else {
        seq![text[0]] + unescaped(text.skip(1))
    }
}

/// The code of a control character has two hexadecimal digits.
proof fn lemma_control_code(c: char)
    requires
        is_control(c),
    ensures
        0 <= c as int <= 127,
        0 <= c as int / 16 < 8,
        0 <= c as int % 16 < 16,
{
}

/// The digits of a control character give it back.
proof fn lemma_hex_char(c: char)
    requires
        is_control(c),
    ensures
        hex_char('0', '0', hex_digit(c as int / 16), hex_digit(c as int % 16)) == c,
{
    let hi = c as int / 16;
    let lo = c as int % 16;
    lemma_control_code(c);
    assert(hex_value(hex_digit(hi)) == hi);
    assert(hex_value(hex_digit(lo)) == lo);
    assert(hex_value('0') == 0);
}

/// The escapes of the characters come one after another.
proof fn lemma_escaped_front(text: Seq<char>)
    requires
        text.len() > 0,
    ensures
        escaped(text) == escaped_char(text[0]) + escaped(text.skip(1)),
    decreases text.len(),
{
    let init = text.drop_last();
    if init.len() == 0 {
        assert(escaped(init) =~= Seq::empty());
        assert(text.skip(1) =~= Seq::empty());
        assert(escaped(text) =~= escaped_char(text[0]) + escaped(text.skip(1)));
    } else {
        lemma_escaped_front(init);
        assert(init.skip(1) =~= text.skip(1).drop_last());
        assert(text.skip(1).last() == text.last());
        assert(escaped(text) =~= escaped_char(text[0]) + escaped(text.skip(1)));
    }
}

/// Escaping loses nothing: undoing the escapes gives the text back.
pub proof fn law_escape_round_trip(text: Seq<char>)
    ensures
        unescaped(escaped(text)) == text,
    decreases text.len(),
{
    if text.len() > 0 {
        lemma_escaped_front(text);
        let rest = text.skip(1);
        law_escape_round_trip(rest);
        let all = escaped(text);
        if text[0] == '\\' || text[0] == '"' {
            assert(all.skip(2) =~= escaped(rest));
        } else if is_control(text[0]) {
            lemma_hex_char(text[0]);
            assert(all.skip(6) =~= escaped(rest));
        } else {
            assert(all.skip(1) =~= escaped(rest));
        }
        assert(unescaped(all) =~= seq![text[0]] + rest);
        assert(seq![text[0]] + rest =~= text);
    }
}

/// No control character stands in a string as it is.
proof fn lemma_escaped_clean(text: Seq<char>)
    ensures
        forall|i: int| 0 <= i < escaped(text).len() ==> !is_control(#[trigger] escaped(text)[i]),
    decreases text.len(),
{
    if text.len() > 0 {
        let front = escaped(text.drop_last());
        let last = escaped_char(text.last());
        lemma_escaped_clean(text.drop_last());
        assert forall|i: int| 0 <= i < escaped(text).len() implies !is_control(
            #[trigger] escaped(text)[i],
        ) by {
            if i < front.len() {
                assert(escaped(text)[i] == front[i]);
            } else {
                assert(escaped(text)[i] == last[i - front.len()]);
                if is_control(text.last()) {
                    lemma_control_code(text.last());
                }
            }
        }
    }
}

/// A line ends once: the last character ends it, and no other does.
pub proof fn law_line_ends_once(key: Seq<char>, value: Seq<char>)
    ensures
        kv_line(key, value).len() > 0,
        kv_line(key, value).last() == '\n',
        forall|i: int|
            0 <= i < kv_line(key, value).len() - 1 ==> #[trigger] kv_line(key, value)[i] != '\n',
{
    reveal_strlit("\"");
    reveal_strlit(" = \"");
    reveal_strlit("\"\n");
    lemma_escaped_clean(key);
    lemma_escaped_clean(value);
    let line = kv_line(key, value);
    let k = key_text(key);
    let v = escaped(value);
    assert forall|i: int| 0 <= i < line.len() - 1 implies #[trigger] line[i] != '\n' by {
        if i < k.len() {
            assert(line[i] == k[i]);
            if is_bare_key(key) {
                assert(is_bare(key[i]));
            } else if 0 < i < k.len() - 1 {
                assert(k[i] == escaped(key)[i - 1]);
            }
        } else if i < k.len() + 4 {
            assert(line[i] == " = \""@[i - k.len()]);
        } else if i < k.len() + 4 + v.len() {
            assert(line[i] == v[i - k.len() - 4]);
        }
    }
}

/// Lines for one key are the same only if their values are.
pub proof fn law_line_fixes_value(key: Seq<char>, a: Seq<char>, b: Seq<char>)
    requires
        kv_line(key, a) == kv_line(key, b),
    ensures
        a == b,
{
    let start = key_text(key) + " = \""@;
    let end = "\"\n"@.len() as int;
    let n = start.len() as int;
    let line = kv_line(key, a);
    assert(line.subrange(n, line.len() - end) =~= escaped(a));
    assert(kv_line(key, b).subrange(n, line.len() - end) =~= escaped(b));
    law_escape_round_trip(a);
    law_escape_round_trip(b);
}

/// The hexadecimal digit for a number below sixteen.
fn hex_digit_char(d: u8) -> (c: char)
    requires
        d < 16,
    ensures
        c == hex_digit(d as int),
{
    if d < 10 {
        (48 + d) as char
    } else {
        (55 + d) as char
    }
}

/// A text as it stands between the quotes of a string.
fn escape(text: &str) -> (out: String)
    ensures
        out@ == escaped(text@),
{
    let mut out = String::new();
    for c in chars: text.chars()
        invariant
            chars.seq() == text@,
            out@ == escaped(text@.take(chars.index())),
    {
        assert(text@.take(chars.index() + 1).drop_last() =~= text@.take(chars.index()));
        if c == '\\' {
            out.push('\\');
            out.push('\\');
        } else if c == '"' {
            out.push('\\');
            out.push('"');
        } else if (c < ' ' && c != '\t') || c == '\u{7f}' {
            proof {
                lemma_control_code(c);
            }
            let code: u32 = c as u32;
            out.push('\\');
            out.push('u');
            out.push('0');
            out.push('0');
            out.push(hex_digit_char((code / 16) as u8));
            out.push(hex_digit_char((code % 16) as u8));
        } else {
            out.push(c);
        }
        assert(out@ =~= escaped(text@.take(chars.index() + 1)));
    }
    assert(text@.take(text@.len() as int) =~= text@);
    out
}

/// Whether a key needs no quotes.
fn needs_no_quotes(key: &str) -> (yes: bool)
    ensures
        yes == is_bare_key(key@),
{
    let mut yes = true;
    for c in chars: key.chars()
        invariant
            chars.seq() == key@,
            yes == (forall|i: int| 0 <= i < chars.index() ==> is_bare(#[trigger] key@[i])),
    {
        let bare = ('a' <= c && c <= 'z') || ('A' <= c && c <= 'Z') || ('0' <= c && c <= '9') || c
            == '_' || c == '-';
        assert(bare == is_bare(key@[chars.index()]));
        yes = yes && bare;
    }
    yes && !key.is_empty()
}

/// `<key> = "<value>"`, with the key in quotes where it needs them, and the end
/// of the line. Quotes, backslashes and control characters are escaped.
pub fn toml_kv(key: &str, value: &str) -> (line: String)
    ensures
        line@ == kv_line(key@, value@),
{
    let mut line = if needs_no_quotes(key) {
        key.to_owned()
    } else {
        let mut quoted = "\"".to_owned();
        quoted.append(escape(key).as_str());
        quoted.append("\"");
        quoted
    };
    line.append(" = \"");
    line.append(escape(value).as_str());
    line.append("\"\n");
    line
}

/// A character is escaped if it is a backslash, a quote or a control character
/// other than a tab. Every other one stands as it is. A control character stands
/// as its code in hexadecimal digits.
pub proof fn law_escaped_chars(text: Seq<char>, c: char)
    ensures
        escaped(Seq::empty()).len() == 0,
        ({
            let after = escaped(text.push(c));
            if c == '\\' || c == '"' {
                after == escaped(text) + seq!['\\', c]
            } else if (c as int) < 32 && c as int != 9 || c as int == 127 {
                let n = escaped(text).len() as int;
                &&& after.len() == n + 6
                &&& after.take(n + 4) == escaped(text) + seq!['\\', 'u', '0', '0']
                &&& after[n + 4] as int == 48 + c as int / 16
                &&& after[n + 5] as int == if c as int % 16 < 10 {
                    48 + c as int % 16
                } else {
                    55 + c as int % 16
                }
            } else {
                after == escaped(text).push(c)
            }
        }),
{
    assert(text.push(c).drop_last() =~= text);
    let after = escaped(text.push(c));
    let n = escaped(text).len() as int;
    if c == '\\' || c == '"' {
        assert(after =~= escaped(text) + seq!['\\', c]);
    } else if is_control(c) {
        lemma_control_code(c);
        assert(after.take(n + 4) =~= escaped(text) + seq!['\\', 'u', '0', '0']);
        assert(after[n + 4] == hex_digit(c as int / 16));
        assert(after[n + 5] == hex_digit(c as int % 16));
    } else {
        assert(after =~= escaped(text).push(c));
    }
}

/// A line holds its key, then its value in quotes. A key of letters, digits,
/// underscores and dashes stands as it is. Any other stands in quotes too.
pub proof fn law_line_holds_entry(key: Seq<char>, value: Seq<char>)
    ensures
        ({
            let end = " = \""@ + escaped(value) + "\"\n"@;
            let plain = key.len() > 0 && forall|i: int|
                0 <= i < key.len() ==> {
                    let c = #[trigger] key[i];
                    ||| 'a' <= c && c <= 'z'
                    ||| 'A' <= c && c <= 'Z'
                    ||| '0' <= c && c <= '9'
                    ||| c == '_'
                    ||| c == '-'
                };
            if plain {
                kv_line(key, value) == key + end
            } else {
                kv_line(key, value) == "\""@ + escaped(key) + "\""@ + end
            }
        }),
{
    let end = " = \""@ + escaped(value) + "\"\n"@;
    if !is_bare_key(key) && key.len() > 0 {
        let i = choose|i: int| 0 <= i < key.len() && !is_bare(#[trigger] key[i]);
        assert(!is_bare(key[i]));
    }
    assert(kv_line(key, value) =~= key_text(key) + end);
}

/// Each entry has a line, after those of the entries before it.
pub proof fn law_lines(
    entries: Seq<(Seq<char>, Seq<char>)>,
    key: Seq<char>,
    value: Seq<char>,
)
    ensures
        kv_lines(Seq::empty()).len() == 0,
        kv_lines(entries.push((key, value))) == kv_lines(entries) + kv_line(key, value),
{
    assert(entries.push((key, value)).drop_last() =~= entries);
}

/// A data file begins with a comment. Each record has a header, its lines and an
/// empty line, after the records before it.
pub proof fn law_document_text(
    records: Seq<Seq<(Seq<char>, Seq<char>)>>,
    record: Seq<(Seq<char>, Seq<char>)>,
)
    ensures
        document_text(Seq::empty())
            == "# Exported by Archive Manager – re-importable with File > Import\n\n"@,
        document_text(records.push(record)) == document_text(records) + "[[records]]\n"@
            + kv_lines(record) + "\n"@,
{
    assert(records.push(record).drop_last() =~= records);
    assert(document_text(records.push(record)) =~= document_text(records) + "[[records]]\n"@
        + kv_lines(record) + "\n"@);
}

/// The lists of a data file are its records under `records`, each as the map
/// that its entries describe, and nothing else.
pub proof fn law_document_lists(records: Seq<Seq<(Seq<char>, Seq<char>)>>)
    ensures
        forall|key: Seq<char>| #[trigger]
            document_lists(records).contains_key(key) <==> key == "records"@ && records.len() > 0,
        records.len() > 0 ==> {
            let list = document_lists(records)["records"@];
            list.len() == records.len() && forall|i: int|
                0 <= i < records.len() ==> #[trigger] list[i] == map_of(records[i])
        },
{
}

/// Of two lists with one key the later holds, each as the maps that its entries
/// describe.
pub proof fn law_lists_of(
    lists: Seq<(String, Vec<Vec<(String, String)>>)>,
    last: (String, Vec<Vec<(String, String)>>),
)
    ensures
        lists_of(Seq::empty()) == Map::<Seq<char>, Seq<Map<Seq<char>, Seq<char>>>>::empty(),
        ({
            let after = lists_of(lists.push(last));
            &&& after == lists_of(lists).insert(last.0@, after[last.0@])
            &&& after[last.0@].len() == last.1@.len()
            &&& forall|i: int|
                0 <= i < last.1@.len() ==> #[trigger] after[last.0@][i] == entry_map(last.1@[i]@)
        }),
{
    assert(lists.push(last).drop_last() =~= lists);
}

/// Of two entries with one key the later holds.
pub proof fn law_entry_map(entries: Seq<(String, String)>, last: (String, String))
    ensures
        entry_map(Seq::empty()) == Map::<Seq<char>, Seq<char>>::empty(),
        entry_map(entries.push(last)) == entry_map(entries).insert(last.0@, last.1@),
{
    let pairs = entries.push(last).map_values(|e: (String, String)| (e.0@, e.1@));
    assert(pairs.drop_last() =~= entries.map_values(|e: (String, String)| (e.0@, e.1@)));
    assert(Seq::<(String, String)>::empty().map_values(|e: (String, String)| (e.0@, e.1@))
        =~= Seq::empty());
}

/// Of two entries of a table with one key the later holds.
pub proof fn law_table_of(entries: Seq<(String, toml::Value)>, last: (String, toml::Value))
    ensures
        table_of(Seq::empty()) == Map::<Seq<char>, TomlView>::empty(),
        table_of(entries.push(last)) == table_of(entries).insert(last.0@, toml_view(last.1)),
{
    assert(entries.push(last).drop_last() =~= entries);
}

/// The entry of a line is a table with its key and its value, and nothing else.
pub proof fn law_line_view(key: Seq<char>, value: Seq<char>)
    ensures
        line_view(key, value) is Table,
        line_view(key, value)->Table_0.contains_key(key),
        line_view(key, value)->Table_0[key] == TomlView::Text(value),
        forall|other: Seq<char>| #[trigger]
            line_view(key, value)->Table_0.contains_key(other) ==> other == key,
{
}

} // verus!
