//! The configuration file of an MCP desktop client:
//! adding this server's entry under `mcpServers.bible`.
use vstd::prelude::*;

use crate::text::{chars_of, string_of};

verus! {

/// A JSON value. Numbers are kept as the text JSON writes for them; object
/// members are kept in order, and a lookup finds the first member with a
/// given key.
#[derive(Debug)]
pub enum Json {
    Null,
    Bool(bool),
    Number(String),
    Text(String),
    Array(Vec<Json>),
    Object(Vec<(String, Json)>),
}

/// The members of `j` if it is an object; none otherwise.
pub open spec fn members(j: Json) -> Seq<(String, Json)> {
    match j {
        Json::Object(es) => es@,
        _ => Seq::empty(),
    }
}

/// The value of the first member whose key is `key`.
pub open spec fn member(es: Seq<(String, Json)>, key: Seq<char>) -> Option<Json>
    decreases es.len(),
{
    if es.len() == 0 {
        None
    } else if es[0].0@ == key {
        Some(es[0].1)
    } else {
        member(es.skip(1), key)
    }
}

/// `j` is `{"command": "bible-mcp", "args": ["serve"]}`.
pub open spec fn is_server_entry(j: Json) -> bool {
    &&& j matches Json::Object(es)
    &&& es@.len() == 2
    &&& es@[0].0@ == "command"@
    &&& es@[0].1 matches Json::Text(c)
    &&& c@ == "bible-mcp"@
    &&& es@[1].0@ == "args"@
    &&& es@[1].1 matches Json::Array(a)
    &&& a@.len() == 1
    &&& a@[0] matches Json::Text(s)
    &&& s@ == "serve"@
}

/// The `mcpServers` value of `root`, or `null` if it has none.
pub open spec fn servers_of(root: Json) -> Json {
    match member(members(root), "mcpServers"@) {
        Some(s) => s,
        None => Json::Null,
    }
}

/// `merged` is `root` with this server's entry added: `merged` is an object;
/// every top-level key but `mcpServers` keeps its value (a root that is not
/// an object counts as `{}`); `mcpServers` is an object whose members are
/// those of the old `mcpServers` (none if it was missing or not an object)
/// with `bible` set to the server entry.
pub open spec fn config_merged(root: Json, merged: Json) -> bool {
    &&& merged is Object
    &&& forall|k: Seq<char>|
        k != "mcpServers"@ ==> #[trigger] member(members(merged), k) == member(members(root), k)
    &&& member(members(merged), "mcpServers"@) matches Some(servers)
    &&& servers is Object
    &&& forall|k: Seq<char>|
        k != "bible"@ ==> #[trigger] member(members(servers), k) == member(
            members(servers_of(root)),
            k,
        )
    &&& member(members(servers), "bible"@) matches Some(entry)
    &&& is_server_entry(entry)
}

proof fn lemma_member_at(es: Seq<(String, Json)>, key: Seq<char>, i: int)
    requires
        0 <= i < es.len(),
        es[i].0@ == key,
        forall|j: int| 0 <= j < i ==> es[j].0@ != key,
    ensures
        member(es, key) == Some(es[i].1),
    decreases i,
{
    if i > 0 {
        assert forall|j: int| 0 <= j < i - 1 implies (#[trigger] es.skip(1)[j]).0@ != key by {
            assert(es.skip(1)[j] == es[j + 1]);
        }
        lemma_member_at(es.skip(1), key, i - 1);
    }
}

proof fn lemma_member_absent(es: Seq<(String, Json)>, key: Seq<char>)
    requires
        forall|j: int| 0 <= j < es.len() ==> es[j].0@ != key,
    ensures
        member(es, key) is None,
    decreases es.len(),
{
    if es.len() > 0 {
        assert forall|j: int| 0 <= j < es.len() - 1 implies (#[trigger] es.skip(1)[j]).0@ != key by {
            assert(es.skip(1)[j] == es[j + 1]);
        }
        lemma_member_absent(es.skip(1), key);
    }
}

/// Replacing the value of the first member with key `key` changes only the
/// lookup of `key`.
proof fn lemma_member_update(es: Seq<(String, Json)>, i: int, key: String, v: Json, k: Seq<char>)
    requires
        0 <= i < es.len(),
        key@ == es[i].0@,
        forall|j: int| 0 <= j < i ==> es[j].0@ != es[i].0@,
    ensures
        member(es.update(i, (key, v)), k) == (if k == key@ {
            Some(v)
        } else {
            member(es, k)
        }),
    decreases i,
{
    let es2 = es.update(i, (key, v));
    if i == 0 {
        assert(es2.skip(1) == es.skip(1));
    } else {
        assert(es2.skip(1) == es.skip(1).update(i - 1, (key, v)));
        assert forall|j: int| 0 <= j < i - 1 implies (#[trigger] es.skip(1)[j]).0@ != es.skip(1)[i - 1].0@ by {
            assert(es.skip(1)[j] == es[j + 1]);
        }
        lemma_member_update(es.skip(1), i - 1, key, v, k);
    }
}

/// Appending a member with a key that no member has adds that key.
proof fn lemma_member_push(es: Seq<(String, Json)>, key: String, v: Json, k: Seq<char>)
    requires
        forall|j: int| 0 <= j < es.len() ==> es[j].0@ != key@,
    ensures
        member(es.push((key, v)), k) == (if k == key@ {
            Some(v)
        } else {
            member(es, k)
        }),
    decreases es.len(),
{
    let es2 = es.push((key, v));
    if es.len() > 0 {
        assert(es2.skip(1) == es.skip(1).push((key, v)));
        assert forall|j: int| 0 <= j < es.len() - 1 implies (#[trigger] es.skip(1)[j]).0@ != key@ by {
            assert(es.skip(1)[j] == es[j + 1]);
        }
        lemma_member_push(es.skip(1), key, v, k);
        assert(es2[0] == es[0]);
        if es[0].0@ == k {
            assert(member(es2, k) == Some(es[0].1));
            assert(member(es, k) == Some(es[0].1));
        } else {
            assert(member(es2, k) == member(es2.skip(1), k));
            assert(member(es, k) == member(es.skip(1), k));
        }
    } else {
        assert(es2.skip(1).len() == 0);
        assert(es2[0] == (key, v));
    }
}

/// The position of the first member whose key is `key`.
fn find_key(es: &Vec<(String, Json)>, key: &String) -> (r: Option<usize>)
    ensures
        match r {
            Some(i) => i < es.len() && es@[i as int].0@ == key@ && forall|j: int|
                0 <= j < i ==> es@[j].0@ != key@,
            None => forall|j: int| 0 <= j < es.len() ==> es@[j].0@ != key@,
        },
{
    let mut i: usize = 0;
    while i < es.len()
        invariant
            i <= es.len(),
            forall|j: int| 0 <= j < i ==> es@[j].0@ != key@,
        decreases es.len() - i,
    {
        if es[i].0 == *key {
            return Some(i);
        }
        i = i + 1;
    }
    None
}

/// The string with the chars of `s`.
fn owned(s: &str) -> (r: String)
    ensures
        r@ == s@,
{
    string_of(chars_of(s))
}

/// `{"command": "bible-mcp", "args": ["serve"]}`: how an MCP client starts
/// this server.
pub fn server_entry() -> (r: Json)
    ensures
        is_server_entry(r),
{
    let mut args: Vec<Json> = Vec::new();
    args.push(Json::Text(owned("serve")));
    let mut es: Vec<(String, Json)> = Vec::new();
    es.push((owned("command"), Json::Text(owned("bible-mcp"))));
    es.push((owned("args"), Json::Array(args)));
    Json::Object(es)
}

/// Sets the member `key` of the object `es` to `v`: the first member with
/// that key gets the value, or a new member is appended.
fn set_member(es: &mut Vec<(String, Json)>, key: String, v: Json)
    ensures
        forall|k: Seq<char>|
            #[trigger] member(final(es)@, k) == (if k == key@ {
                Some(v)
            } else {
                member(old(es)@, k)
            }),
{
    match find_key(es, &key) {
        Some(i) => {
            let ghost before = es@;
            proof {
                assert forall|k: Seq<char>| #[trigger] member(before.update(i as int, (key, v)), k)
                    == (if k == key@ {
                    Some(v)
                } else {
                    member(before, k)
                }) by {
                    lemma_member_update(before, i as int, key, v, k);
                }
            }
            es.set(i, (key, v));
        },
        None => {
            let ghost before = es@;
            proof {
                assert forall|k: Seq<char>| #[trigger] member(before.push((key, v)), k) == (if k
                    == key@ {
                    Some(v)
                } else {
                    member(before, k)
                }) by {
                    lemma_member_push(before, key, v, k);
                }
            }
            es.push((key, v));
        },
    }
}


/// Adds this server to an MCP client configuration: `root` becomes an object
/// if it is not one, its `mcpServers` member becomes an object if it is
/// missing or not one, and `mcpServers.bible` is set to the server entry;
/// everything else is kept.
pub fn merge_mcp_config(root: Json) -> (merged: Json)
    ensures
        config_merged(root, merged),
{
    let ghost old_root = root;
    let mut es: Vec<(String, Json)> = match root {
        Json::Object(es) => es,
        _ => Vec::new(),
    };
    let ghost top = es@;
    assert(top == members(old_root));
    let servers_key = owned("mcpServers");
    let mut servers: Vec<(String, Json)> = Vec::new();
    match find_key(&es, &servers_key) {
        Some(i) => {
            let mut slot = (owned("mcpServers"), Json::Null);
            let ghost placeholder = slot;
            es.set_and_swap(i, &mut slot);
            proof {
                lemma_member_at(top, "mcpServers"@, i as int);
                assert(servers_of(old_root) == slot.1);
                assert forall|k: Seq<char>| #[trigger] member(es@, k) == (if k == "mcpServers"@ {
                    Some(Json::Null)
                } else {
                    member(top, k)
                }) by {
                    lemma_member_update(top, i as int, placeholder.0, Json::Null, k);
                }
            }
            match slot.1 {
                Json::Object(ms) => {
                    servers = ms;
                },
                _ => {},
            }
        },
        None => {
            proof {
                lemma_member_absent(top, "mcpServers"@);
            }
        },
    }
    let ghost mid = es@;
    assert(servers@ == members(servers_of(old_root)));
    assert(forall|k: Seq<char>| k != "mcpServers"@ ==> #[trigger] member(mid, k) == member(top, k));
    set_member(&mut servers, owned("bible"), server_entry());
    let new_servers = Json::Object(servers);
    set_member(&mut es, servers_key, new_servers);
    Json::Object(es)
}

/// `c` has the Unicode White_Space property (what `char::is_whitespace`
/// tests and `str::trim` removes).
pub open spec fn white_space(c: char) -> bool {
    ||| '\u{9}' <= c <= '\u{d}'
    ||| c == ' '
    ||| c == '\u{85}'
    ||| c == '\u{a0}'
    ||| c == '\u{1680}'
    ||| '\u{2000}' <= c <= '\u{200a}'
    ||| c == '\u{2028}'
    ||| c == '\u{2029}'
    ||| c == '\u{202f}'
    ||| c == '\u{205f}'
    ||| c == '\u{3000}'
}

/// `text` is blank: it is nothing but white space (it trims to nothing).
pub open spec fn blank(text: Seq<char>) -> bool {
    forall|i: int| 0 <= i < text.len() ==> white_space(#[trigger] text[i])
}

fn is_white_space(c: char) -> (r: bool)
    ensures
        r == white_space(c),
{
    ('\u{9}' <= c && c <= '\u{d}') || c == ' ' || c == '\u{85}' || c == '\u{a0}' || c
        == '\u{1680}' || ('\u{2000}' <= c && c <= '\u{200a}') || c == '\u{2028}' || c
        == '\u{2029}' || c == '\u{202f}' || c == '\u{205f}' || c == '\u{3000}'
}

/// Whether `text` is blank.
pub fn is_blank(text: &str) -> (r: bool)
    ensures
        r == blank(text@),
{
    let cs = chars_of(text);
    let mut i: usize = 0;
    while i < cs.len()
        invariant
            i <= cs.len(),
            cs@ == text@,
            forall|j: int| 0 <= j < i ==> white_space(#[trigger] cs@[j]),
        decreases cs.len() - i,
    {
        if !is_white_space(cs[i]) {
            return false;
        }
        i = i + 1;
    }
    true
}

/// A configuration text that is not valid JSON, with the parser's message.
#[derive(Debug)]
pub struct ConfigParseError {
    pub message: String,
}

/// Adds this server to the configuration text `text`, given what parsing
/// `text` as JSON gave (`parsed`). Blank text counts as `{}` whatever the
/// parse gave; otherwise a parse error is the answer, and a parsed value is
/// merged (see `merge_mcp_config`).
pub fn merge_config_text(text: &str, parsed: Result<Json, ConfigParseError>) -> (r: Result<
    Json,
    ConfigParseError,
>)
    ensures
        blank(text@) ==> (r matches Ok(m) && config_merged(Json::Null, m)),
        !blank(text@) ==> match parsed {
            Ok(j) => r matches Ok(m) && config_merged(j, m),
            Err(e) => r == Err::<Json, ConfigParseError>(e),
        },
{
    if is_blank(text) {
        Ok(merge_mcp_config(Json::Null))
    } else {
        match parsed {
            Ok(j) => Ok(merge_mcp_config(j)),
            Err(e) => Err(e),
        }
    }
}

#[verifier::external_type_specification]
#[verifier::external_body]
pub struct ExValue(serde_json::Value);

/// The JSON value that `serde_json::from_str` parses from `text`, as a
/// `Json` (numbers by the text `serde_json` writes for them); `None` when
/// `text` is not valid JSON.
pub uninterp spec fn json_parse(text: Seq<char>) -> Option<Json>;

/// Moves a `serde_json::Value` into the library's `Json`, variant for
/// variant, numbers as their text.
#[verifier::external_body]
fn json_of(v: serde_json::Value) -> Json {
    match v {
        serde_json::Value::Null => Json::Null,
        serde_json::Value::Bool(b) => Json::Bool(b),
        serde_json::Value::Number(n) => Json::Number(n.to_string()),
        serde_json::Value::String(t) => Json::Text(t),
        serde_json::Value::Array(a) => Json::Array(a.into_iter().map(json_of).collect()),
        serde_json::Value::Object(m) => Json::Object(
            m.into_iter().map(|(k, x)| (k, json_of(x))).collect(),
        ),
    }
}

/// Calls `serde_json::from_str` to parse `text` as a JSON value. Trusted:
/// it succeeds exactly when the named parse `json_parse(text)` is a value,
/// and gives that value; otherwise the error holds the parser's message.
#[verifier::external_body]
fn parse_json(text: &str) -> (r: Result<Json, ConfigParseError>)
    ensures
        r is Ok <==> json_parse(text@) is Some,
        r matches Ok(j) ==> j == json_parse(text@)->0,
{
    match serde_json::from_str::<serde_json::Value>(text) {
        Ok(v) => Ok(json_of(v)),
        Err(e) => Err(ConfigParseError { message: e.to_string() }),
    }
}

/// Adds this server to the configuration text `existing`: blank text counts
/// as `{}`; other text is parsed as JSON, and text that is not valid JSON
/// is an error (see `merge_config_text`).
pub fn merge_mcp_config_text(existing: &str) -> (r: Result<Json, ConfigParseError>)
    ensures
        blank(existing@) ==> (r matches Ok(m) && config_merged(Json::Null, m)),
        !blank(existing@) ==> match json_parse(existing@) {
            Some(j) => r matches Ok(m) && config_merged(j, m),
            None => r is Err,
        },
{
    if is_blank(existing) {
        merge_config_text(existing, Ok(Json::Null))
    } else {
        merge_config_text(existing, parse_json(existing))
    }
}

/// Merging a configuration twice gives the configuration that merging it
/// once gives: the same top-level members besides `mcpServers`, the same
/// servers besides `bible`, and the server entry under `bible`.
pub proof fn lemma_merge_idempotent(root: Json, once: Json, twice: Json)
    requires
        config_merged(root, once),
        config_merged(once, twice),
    ensures
        config_merged(root, twice),
{
    let s1 = member(members(once), "mcpServers"@)->Some_0;
    assert(servers_of(once) == s1);
}

/// Merging a configuration that is already merged changes nothing a lookup
/// sees: every top-level member but `mcpServers` and every server but
/// `bible` stay, and `bible` is the server entry before and after.
pub proof fn lemma_merge_of_merged_unchanged(root: Json, once: Json, twice: Json)
    requires
        config_merged(root, once),
        config_merged(once, twice),
    ensures
        forall|k: Seq<char>|
            k != "mcpServers"@ ==> #[trigger] member(members(twice), k) == member(members(once), k),
        forall|k: Seq<char>|
            k != "bible"@ ==> #[trigger] member(members(servers_of(twice)), k) == member(
                members(servers_of(once)),
                k,
            ),
        member(members(servers_of(once)), "bible"@) matches Some(e) && is_server_entry(e),
        member(members(servers_of(twice)), "bible"@) matches Some(e) && is_server_entry(e),
{
    let s1 = member(members(once), "mcpServers"@)->Some_0;
    let s2 = member(members(twice), "mcpServers"@)->Some_0;
    assert(servers_of(once) == s1);
    assert(servers_of(twice) == s2);
}
} // verus!
