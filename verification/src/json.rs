//! The JSON text that `serde_json` writes for a map of strings: a compact
//! object whose members are the map's entries, each key and value a JSON
//! string.

use vstd::prelude::*;

verus! {

/// A lower-case hexadecimal digit, for `d < 16`.
pub open spec fn hex_digit(d: nat) -> char {
    if d < 10 {
        (48 + d) as char
    } else {
        (87 + d) as char
    }
}

/// How one character stands inside a JSON string: quote and backslash
/// behind a backslash, the short escapes for backspace, tab, line feed,
/// form feed and carriage return, `\u00XX` for the other control
/// characters below U+0020, and every other character as itself.
pub open spec fn json_char(c: char) -> Seq<char> {
    if c == '"' {
        seq!['\\', '"']
    } else if c == '\\' {
        seq!['\\', '\\']
    } else if c == '\u{8}' {
        seq!['\\', 'b']
    } else if c == '\t' {
        seq!['\\', 't']
    } else if c == '\n' {
        seq!['\\', 'n']
    } else if c == '\u{c}' {
        seq!['\\', 'f']
    } else if c == '\r' {
        seq!['\\', 'r']
    } else if (c as u32) < 0x20 {
        seq!['\\', 'u', '0', '0', hex_digit((c as u32 / 16) as nat), hex_digit((c as u32 % 16) as nat)]
    } else {
        seq![c]
    }
}

/// The characters of `s`, each as it stands inside a JSON string.
pub open spec fn json_escaped(s: Seq<char>) -> Seq<char>
    decreases s.len(),
{
    if s.len() == 0 {
        Seq::<char>::empty()
    } else {
        json_escaped(s.drop_last()) + json_char(s.last())
    }
}

/// `s` as a JSON string: escaped, between double quotes.
pub open spec fn json_string(s: Seq<char>) -> Seq<char> {
    seq!['"'] + json_escaped(s) + seq!['"']
}

/// One object member: the key's JSON string, a colon, the value's.
pub open spec fn json_member(e: (Seq<char>, Seq<char>)) -> Seq<char> {
    json_string(e.0) + seq![':'] + json_string(e.1)
}

/// The members in order, separated by commas.
pub open spec fn json_members(es: Seq<(Seq<char>, Seq<char>)>) -> Seq<char>
    decreases es.len(),
{
    if es.len() == 0 {
        Seq::<char>::empty()
    } else if es.len() == 1 {
        json_member(es[0])
    } else {
        json_members(es.drop_last()) + seq![','] + json_member(es.last())
    }
}

/// A compact JSON object with the given members, in the given order.
pub open spec fn json_object(es: Seq<(Seq<char>, Seq<char>)>) -> Seq<char> {
    seq!['{'] + json_members(es) + seq!['}']
}

/// Whether `es` lists each entry of `m` exactly once, in some order.
pub open spec fn lists_entries(es: Seq<(String, String)>, m: Map<String, String>) -> bool {
    &&& forall|i: int| 0 <= i < es.len() ==> m.contains_key(#[trigger] es[i].0) && m[es[i].0] == es[i].1
    &&& forall|i: int, j: int| 0 <= i < es.len() && 0 <= j < es.len() && i != j ==> es[i].0 != es[j].0
    &&& forall|k: String| #[trigger] m.contains_key(k) ==> exists|i: int| 0 <= i < es.len() && es[i].0 == k
}

/// The characters of each key and value.
pub open spec fn entry_texts(es: Seq<(String, String)>) -> Seq<(Seq<char>, Seq<char>)> {
    es.map_values(|e: (String, String)| (e.0@, e.1@))
}

/// Whether `text` is a JSON object of the entries of `m`, each exactly
/// once, in some order.
pub open spec fn is_object_of(text: Seq<char>, m: Map<String, String>) -> bool {
    exists|es: Seq<(String, String)>| lists_entries(es, m) && text == json_object(entry_texts(es))
}

/// A map with a single entry is listed in exactly one way, so its JSON
/// object is fully determined.
pub proof fn lemma_single_entry_listing(es: Seq<(String, String)>, m: Map<String, String>, k: String)
    requires
        lists_entries(es, m),
        m.dom() == set![k],
    ensures
        es == seq![(k, m[k])],
{
    assert(m.contains_key(k));
    let i = choose|i: int| 0 <= i < es.len() && es[i].0 == k;
    if es.len() > 1 {
        assert(m.contains_key(es[0].0) && m.contains_key(es[1].0));
        assert(m.dom().contains(es[0].0) && m.dom().contains(es[1].0));
        assert(es[0].0 == k && es[1].0 == k);
    }
    assert(m.contains_key(es[0].0));
    assert(m.dom().contains(es[0].0));
    assert(es =~= seq![(k, m[k])]);
}

/// An empty map is an empty object.
pub proof fn lemma_empty_listing(es: Seq<(String, String)>, m: Map<String, String>)
    requires
        lists_entries(es, m),
        m.dom() == Set::<String>::empty(),
    ensures
        json_object(entry_texts(es)) == seq!['{', '}'],
{
    if es.len() > 0 {
        assert(m.contains_key(es[0].0));
    }
    assert(entry_texts(es) =~= Seq::<(Seq<char>, Seq<char>)>::empty());
    assert(json_object(entry_texts(es)) =~= seq!['{', '}']);
}

} // verus!
