//! The topics that the command line has help for.

use vstd::prelude::*;

verus! {

/// A help topic.
#[derive(Debug, PartialEq, Eq, Clone, Copy)]
pub enum Topic {
    /// The summary of all commands.
    Overview,
    Ping,
    Status,
    Tables,
    CreateTable,
    DropTable,
    Get,
    Put,
    Delete,
    Query,
    All,
    Keys,
    Acl,
    Patterns,
    Memories,
    StateMachine,
    Identities,
    /// A name that is no topic.
    Unknown,
}

/// The topic that a name stands for. No name, or the empty name, stands for
/// the overview.
pub open spec fn topic_of(name: Option<Seq<char>>) -> Topic {
    match name {
        None => Topic::Overview,
        Some(name) => if name == ""@ {
            Topic::Overview
        } else if name == "ping"@ {
            Topic::Ping
        } else if name == "status"@ {
            Topic::Status
        } else if name == "tables"@ {
            Topic::Tables
        } else if name == "create-table"@ {
            Topic::CreateTable
        } else if name == "drop-table"@ {
            Topic::DropTable
        } else if name == "get"@ {
            Topic::Get
        } else if name == "put"@ {
            Topic::Put
        } else if name == "delete"@ {
            Topic::Delete
        } else if name == "query"@ {
            Topic::Query
        } else if name == "all"@ {
            Topic::All
        } else if name == "keys"@ {
            Topic::Keys
        } else if name == "acl"@ {
            Topic::Acl
        } else if name == "patterns"@ {
            Topic::Patterns
        } else if name == "memories"@ {
            Topic::Memories
        } else if name == "statemachine"@ {
            Topic::StateMachine
        } else if name == "identities"@ {
            Topic::Identities
        } else {
            Topic::Unknown
        },
    }
}

/// Says whether two texts are the same.
fn same(name: &String, other: &str) -> (equal: bool)
    ensures
        equal == (name@ == other@),
{
    let other = other.to_owned();
    *name == other
}

/// Finds the topic that a name stands for.
pub fn topic_named(name: Option<&str>) -> (topic: Topic)
    ensures
        topic == topic_of(
            match name {
                Some(name) => Some(name@),
                None => None,
            },
        ),
{
    match name {
        None => Topic::Overview,
        Some(name) => {
            let name = name.to_owned();
            if same(&name, "") {
                Topic::Overview
            } else if same(&name, "ping") {
                Topic::Ping
            } else if same(&name, "status") {
                Topic::Status
            } else if same(&name, "tables") {
                Topic::Tables
            } else if same(&name, "create-table") {
                Topic::CreateTable
            } else if same(&name, "drop-table") {
                Topic::DropTable
            } else if same(&name, "get") {
                Topic::Get
            } else if same(&name, "put") {
                Topic::Put
            } else if same(&name, "delete") {
                Topic::Delete
            } else if same(&name, "query") {
                Topic::Query
            } else if same(&name, "all") {
                Topic::All
            } else if same(&name, "keys") {
                Topic::Keys
            } else if same(&name, "acl") {
                Topic::Acl
            } else if same(&name, "patterns") {
                Topic::Patterns
            } else if same(&name, "memories") {
                Topic::Memories
            } else if same(&name, "statemachine") {
                Topic::StateMachine
            } else if same(&name, "identities") {
                Topic::Identities
            } else {
                Topic::Unknown
            }
        },
    }
}

} // verus!
