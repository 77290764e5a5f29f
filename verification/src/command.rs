//! From a command of the command line to the request that carries it out.

use crate::bridge::{human_to_wire, json_to_msgpack};
use crate::json::{parse_json, parsing};
use crate::human::HumanValue;
use crate::wire::{lemma_array_view, models, Wire, WireValue};
use vstd::prelude::*;

verus! {

/// `char::is_whitespace` says of the character that it is white space.
pub uninterp spec fn whitespace(c: char) -> bool;

/// `char::is_whitespace`.
///
/// Trusted: that the answer depends on the character alone.
#[verifier::external_body]
fn is_whitespace(c: char) -> (white: bool)
    ensures
        white == whitespace(c),
{
    c.is_whitespace()
}

/// A text without the white space at its start.
pub open spec fn trim_start(text: Seq<char>) -> Seq<char>
    decreases text.len(),
{
    if text.len() > 0 && whitespace(text[0]) {
        trim_start(text.skip(1))
    } else {
        text
    }
}

/// A text without the white space at its end.
pub open spec fn trim_end(text: Seq<char>) -> Seq<char>
    decreases text.len(),
{
    if text.len() > 0 && whitespace(text.last()) {
        trim_end(text.drop_last())
    } else {
        text
    }
}

/// A text without the white space at its start and at its end.
pub open spec fn trimmed(text: Seq<char>) -> Seq<char> {
    trim_end(trim_start(text))
}

/// The pieces of a text between its separators, in order. A text without a
/// separator is one piece; two separators in a row have an empty piece
/// between them.
pub open spec fn split_on(text: Seq<char>, separator: char) -> Seq<Seq<char>>
    decreases text.len(),
{
    if text.len() == 0 {
        seq![Seq::empty()]
    } else {
        let before = split_on(text.drop_last(), separator);
        if text.last() == separator {
            before.push(Seq::empty())
        } else {
            before.update(before.len() - 1, before.last().push(text.last()))
        }
    }
}

/// The texts of a run of strings.
pub open spec fn texts(strings: Seq<String>) -> Seq<Seq<char>> {
    Seq::new(strings.len(), |i: int| strings[i]@)
}

/// Removes the white space at the start and at the end of a text.
pub fn trim(text: &str) -> (kept: String)
    ensures
        kept@ == trimmed(text@),
{
    let n: usize = text.unicode_len();
    let mut start: usize = 0;
    proof {
        assert(text@.skip(0) =~= text@);
    }
    while start < n && is_whitespace(text.get_char(start))
        invariant
            start <= n,
            n == text@.len(),
            trim_start(text@) == trim_start(text@.skip(start as int)),
        decreases n - start,
    {
        proof {
            let rest = text@.skip(start as int);
            assert(rest[0] == text@[start as int]);
            assert(rest.skip(1) =~= text@.skip(start + 1));
        }
        start += 1;
    }
    let ghost rest = text@.skip(start as int);
    proof {
        if start < n {
            assert(rest[0] == text@[start as int]);
        }
        assert(trim_start(text@) == rest);
        assert(rest =~= text@.subrange(start as int, n as int));
    }
    let mut end: usize = n;
    while end > start && is_whitespace(text.get_char(end - 1))
        invariant
            start <= end <= n,
            n == text@.len(),
            trim_end(rest) == trim_end(text@.subrange(start as int, end as int)),
        decreases end - start,
    {
        proof {
            let part = text@.subrange(start as int, end as int);
            assert(part.last() == text@[end - 1]);
            assert(part.drop_last() =~= text@.subrange(start as int, end - 1));
        }
        end -= 1;
    }
    proof {
        let part = text@.subrange(start as int, end as int);
        if end > start {
            assert(part.last() == text@[end - 1]);
        }
        assert(trim_end(part) == part);
    }
    text.substring_char(start, end).to_owned()
}

/// Splits a text at its commas.
pub fn split_commas(text: &str) -> (pieces: Vec<String>)
    ensures
        texts(pieces@) == split_on(text@, ','),
{
    let n: usize = text.unicode_len();
    let mut pieces: Vec<String> = Vec::new();
    let mut start: usize = 0;
    let mut i: usize = 0;
    proof {
        assert(text@.take(0) =~= Seq::empty());
        assert(texts(pieces@).push(text@.subrange(0, 0)) =~= split_on(text@.take(0), ','));
    }
    while i < n
        invariant
            start <= i <= n,
            n == text@.len(),
            texts(pieces@).push(text@.subrange(start as int, i as int)) == split_on(text@.take(i as int), ','),
        decreases n - i,
    {
        let ghost before = split_on(text@.take(i as int), ',');
        proof {
            let next = text@.take(i + 1);
            assert(next.drop_last() =~= text@.take(i as int));
            assert(next.last() == text@[i as int]);
            assert(before.last() == text@.subrange(start as int, i as int));
            assert(before.drop_last() =~= texts(pieces@));
        }
        if text.get_char(i) == ',' {
            pieces.push(text.substring_char(start, i).to_owned());
            start = i + 1;
            proof {
                assert(text@.subrange(start as int, i + 1) =~= Seq::empty());
                assert(texts(pieces@) =~= before);
                assert(texts(pieces@).push(text@.subrange(start as int, i + 1)) =~= before.push(Seq::empty()));
            }
        } else {
            proof {
                assert(text@.subrange(start as int, i + 1) =~= text@.subrange(start as int, i as int).push(
                    text@[i as int],
                ));
                assert(texts(pieces@).push(text@.subrange(start as int, i + 1)) =~= before.update(
                    before.len() - 1,
                    before.last().push(text@[i as int]),
                ));
            }
        }
        i += 1;
    }
    proof {
        assert(text@.take(n as int) =~= text@);
    }
    let ghost done = texts(pieces@);
    pieces.push(text.substring_char(start, n).to_owned());
    proof {
        assert(texts(pieces@) =~= done.push(text@.subrange(start as int, n as int)));
    }
    pieces
}

/// The attributes that a comma-separated list names: its pieces, each
/// without the white space around it, as text strings.
pub open spec fn attribute_list(attrs: Seq<char>) -> Seq<Wire> {
    Seq::new(split_on(attrs, ',').len(), |i: int| Wire::Text(trimmed(split_on(attrs, ',')[i])))
}

/// Reads a comma-separated list of attribute names.
pub fn attributes(attrs: &str) -> (listed: Vec<WireValue>)
    ensures
        models(listed@) == attribute_list(attrs@),
{
    let pieces = split_commas(attrs);
    let mut listed: Vec<WireValue> = Vec::new();
    let mut i: usize = 0;
    while i < pieces.len()
        invariant
            i <= pieces.len(),
            listed@.len() == i,
            texts(pieces@) == split_on(attrs@, ','),
            forall|j: int| 0 <= j < i ==> (#[trigger] listed@[j])@ == Wire::Text(trimmed(pieces@[j]@)),
        decreases pieces.len() - i,
    {
        let name = trim(pieces[i].as_str());
        listed.push(WireValue::Text(name));
        i += 1;
    }
    proof {
        assert forall|j: int| 0 <= j < listed@.len() implies models(listed@)[j] == attribute_list(attrs@)[j] by {
            assert(texts(pieces@)[j] == pieces@[j]@);
        }
        assert(models(listed@) =~= attribute_list(attrs@));
    }
    listed
}

/// A command that is carried out by a call to the daemon.
#[derive(Debug, PartialEq, Eq)]
pub enum Command {
    Ping,
    Status,
    Tables,
    /// `attrs` is a comma-separated list; the first attribute is the key.
    CreateTable { name: String, attrs: String },
    DropTable { name: String },
    Get { table: String, key: String },
    /// `json` is the record, as JSON text.
    Put { table: String, json: String },
    Delete { table: String, key: String },
    /// `pattern` is the pattern, as JSON text.
    Query { table: String, pattern: String },
    All { table: String },
    Keys { table: String },
    AclGrant { identity: String, table: String, perms: String },
    AclRevoke { identity: String, table: String, perms: String },
    AclList,
}

/// A call to make: the method and its parameters.
#[derive(Debug, PartialEq, Eq)]
pub struct Request {
    pub method: String,
    pub params: Vec<WireValue>,
}

/// Why a command names no request.
#[derive(Debug, PartialEq, Eq)]
pub enum CommandError {
    /// The record is no JSON; the cause as the reader gave it.
    InvalidJson(String),
    /// The pattern is no JSON; the cause as the reader gave it.
    InvalidPattern(String),
}

impl CommandError {
    /// The message that tells the user of the error.
    pub open spec fn message_text(&self) -> Seq<char> {
        match self {
            CommandError::InvalidJson(cause) => "invalid JSON: "@ + cause@,
            CommandError::InvalidPattern(cause) => "invalid JSON pattern: "@ + cause@,
        }
    }

    /// The message that tells the user of the error.
    pub fn message(&self) -> (text: String)
        ensures
            text@ == self.message_text(),
    {
        match self {
            CommandError::InvalidJson(cause) => {
                let mut text = "invalid JSON: ".to_owned();
                text.append(cause.as_str());
                text
            },
            CommandError::InvalidPattern(cause) => {
                let mut text = "invalid JSON pattern: ".to_owned();
                text.append(cause.as_str());
                text
            },
        }
    }
}

/// The name of the method that carries out a command.
pub open spec fn method_of(command: Command) -> Seq<char> {
    match command {
        Command::Ping => "ping"@,
        Command::Status => "status"@,
        Command::Tables => "tables"@,
        Command::CreateTable { .. } => "create_table"@,
        Command::DropTable { .. } => "drop_table"@,
        Command::Get { .. } => "get"@,
        Command::Put { .. } => "put"@,
        Command::Delete { .. } => "delete"@,
        Command::Query { .. } => "match"@,
        Command::All { .. } => "all"@,
        Command::Keys { .. } => "keys"@,
        Command::AclGrant { .. } => "acl_grant"@,
        Command::AclRevoke { .. } => "acl_revoke"@,
        Command::AclList => "acl_list"@,
    }
}

/// Two parameters where the second is read from JSON text; nothing where
/// the text is no JSON.
pub open spec fn with_json(first: Seq<char>, json: Seq<char>) -> Option<Seq<Wire>> {
    match parsing(json) {
        Some(value) => Some(seq![Wire::Text(first), human_to_wire(value)]),
        None => None,
    }
}

/// The parameters of the call that carries out a command; nothing where a
/// record or a pattern is no JSON.
pub open spec fn params_of(command: Command) -> Option<Seq<Wire>> {
    match command {
        Command::Ping => Some(Seq::empty()),
        Command::Status => Some(Seq::empty()),
        Command::Tables => Some(Seq::empty()),
        Command::CreateTable { name, attrs } => Some(
            seq![Wire::Text(name@), Wire::Array(attribute_list(attrs@))],
        ),
        Command::DropTable { name } => Some(seq![Wire::Text(name@)]),
        Command::Get { table, key } => Some(seq![Wire::Text(table@), Wire::Text(key@)]),
        Command::Put { table, json } => with_json(table@, json@),
        Command::Delete { table, key } => Some(seq![Wire::Text(table@), Wire::Text(key@)]),
        Command::Query { table, pattern } => with_json(table@, pattern@),
        Command::All { table } => Some(seq![Wire::Text(table@)]),
        Command::Keys { table } => Some(seq![Wire::Text(table@)]),
        Command::AclGrant { identity, table, perms } => Some(
            seq![Wire::Text(identity@), Wire::Text(table@), Wire::Text(perms@)],
        ),
        Command::AclRevoke { identity, table, perms } => Some(
            seq![Wire::Text(identity@), Wire::Text(table@), Wire::Text(perms@)],
        ),
        Command::AclList => Some(Seq::empty()),
    }
}

/// The parameters of a call that takes a table and a value read from JSON
/// text, from what reading the text led to: the two parameters, or the
/// cause that the reader gave.
pub fn table_and_value(table: &String, parsed: Result<HumanValue, String>) -> (params: Result<
    Vec<WireValue>,
    String,
>)
    ensures
        match parsed {
            Ok(value) => params matches Ok(listed) && models(listed@) == seq![
                Wire::Text(table@),
                human_to_wire(value@),
            ],
            Err(cause) => params == Err::<Vec<WireValue>, String>(cause),
        },
{
    match parsed {
        Ok(value) => {
            let mut listed: Vec<WireValue> = Vec::new();
            listed.push(WireValue::Text(table.clone()));
            listed.push(json_to_msgpack(&value));
            proof {
                assert(models(listed@) =~= seq![Wire::Text(table@), human_to_wire(value@)]);
            }
            Ok(listed)
        },
        Err(cause) => Err(cause),
    }
}

/// The request that carries out a command.
pub fn request_for(command: &Command) -> (made: Result<Request, CommandError>)
    ensures
        match made {
            Ok(request) => request.method@ == method_of(*command) && params_of(*command) == Some(
                models(request.params@),
            ),
            Err(error) => params_of(*command) is None && (command is Put ==> error is InvalidJson) && (command
                is Query ==> error is InvalidPattern),
        },
{
    let mut params: Vec<WireValue> = Vec::new();
    let method: &str = match command {
        Command::Ping => "ping",
        Command::Status => "status",
        Command::Tables => "tables",
        Command::CreateTable { name, attrs } => {
            let listed = attributes(attrs.as_str());
            proof {
                lemma_array_view(listed);
            }
            params.push(WireValue::Text(name.clone()));
            params.push(WireValue::Array(listed));
            "create_table"
        },
        Command::DropTable { name } => {
            params.push(WireValue::Text(name.clone()));
            "drop_table"
        },
        Command::Get { table, key } => {
            params.push(WireValue::Text(table.clone()));
            params.push(WireValue::Text(key.clone()));
            "get"
        },
        Command::Put { table, json } => {
            match table_and_value(table, parse_json(json.as_str())) {
                Ok(listed) => {
                    params = listed;
                },
                Err(cause) => {
                    return Err(CommandError::InvalidJson(cause));
                },
            }
            "put"
        },
        Command::Delete { table, key } => {
            params.push(WireValue::Text(table.clone()));
            params.push(WireValue::Text(key.clone()));
            "delete"
        },
        Command::Query { table, pattern } => {
            match table_and_value(table, parse_json(pattern.as_str())) {
                Ok(listed) => {
                    params = listed;
                },
                Err(cause) => {
                    return Err(CommandError::InvalidPattern(cause));
                },
            }
            "match"
        },
        Command::All { table } => {
            params.push(WireValue::Text(table.clone()));
            "all"
        },
        Command::Keys { table } => {
            params.push(WireValue::Text(table.clone()));
            "keys"
        },
        Command::AclGrant { identity, table, perms } => {
            params.push(WireValue::Text(identity.clone()));
            params.push(WireValue::Text(table.clone()));
            params.push(WireValue::Text(perms.clone()));
            "acl_grant"
        },
        Command::AclRevoke { identity, table, perms } => {
            params.push(WireValue::Text(identity.clone()));
            params.push(WireValue::Text(table.clone()));
            params.push(WireValue::Text(perms.clone()));
            "acl_revoke"
        },
        Command::AclList => "acl_list",
    };
    proof {
        assert(params_of(*command) is Some);
        assert(models(params@) =~= params_of(*command)->Some_0);
    }
    Ok(Request { method: method.to_owned(), params })
}

} // verus!
