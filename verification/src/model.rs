//! The actions that the transaction log records, and their names in the log.

use vstd::prelude::*;
use crate::text::{chars_of, is_text};

verus! {

/// The kind of a line of the transaction log.
#[derive(Debug, PartialEq, Eq, Structural, Clone, Copy)]
pub enum Action {
    CreateEntity,
    Insert,
    Read,
    UpdateSet,
    UpdateContent,
    Delete,
    EvictEntity,
    EvictEntityId,
    Error,
}

/// The name under which an action is written in the log.
pub open spec fn action_text(a: Action) -> Seq<char> {
    match a {
        Action::Read => "READ"@,
        Action::CreateEntity => "CREATE_ENTITY"@,
        Action::Insert => "INSERT"@,
        Action::UpdateSet => "UPDATE_SET"@,
        Action::UpdateContent => "UPDATE_CONTENT"@,
        Action::Delete => "DELETE"@,
        Action::EvictEntity => "EVICT_ENTITY"@,
        Action::EvictEntityId => "EVICT_ENTITY_ID"@,
        Action::Error => "Error"@,
    }
}

/// The action that a name read from the log stands for; any other text is
/// `Error`.
pub open spec fn action_of(s: Seq<char>) -> Action {
    if s == "READ"@ {
        Action::Read
    } else if s == "CREATE_ENTITY"@ {
        Action::CreateEntity
    } else if s == "INSERT"@ {
        Action::Insert
    } else if s == "DELETE"@ {
        Action::Delete
    } else if s == "UPDATE_SET"@ {
        Action::UpdateSet
    } else if s == "UPDATE_CONTENT"@ {
        Action::UpdateContent
    } else if s == "EVICT_ENTITY"@ {
        Action::EvictEntity
    } else if s == "EVICT_ENTITY_ID"@ {
        Action::EvictEntityId
    } else {
        Action::Error
    }
}

impl Action {
    /// The name of the action in the log.
    pub fn to_string(&self) -> (r: String)
        ensures
            r@ == action_text(*self),
    {
        match self {
            Action::Read => String::from_str("READ"),
            Action::CreateEntity => String::from_str("CREATE_ENTITY"),
            Action::Insert => String::from_str("INSERT"),
            Action::UpdateSet => String::from_str("UPDATE_SET"),
            Action::UpdateContent => String::from_str("UPDATE_CONTENT"),
            Action::Delete => String::from_str("DELETE"),
            Action::EvictEntity => String::from_str("EVICT_ENTITY"),
            Action::EvictEntityId => String::from_str("EVICT_ENTITY_ID"),
            Action::Error => String::from_str("Error"),
        }
    }

    /// The action named by `val`.
    pub fn from_text(val: &str) -> (r: Action)
        ensures
            r == action_of(val@),
    {
        let t = chars_of(val);
        if is_text(&t, "READ") {
            Action::Read
        } else if is_text(&t, "CREATE_ENTITY") {
            Action::CreateEntity
        } else if is_text(&t, "INSERT") {
            Action::Insert
        } else if is_text(&t, "DELETE") {
            Action::Delete
        } else if is_text(&t, "UPDATE_SET") {
            Action::UpdateSet
        } else if is_text(&t, "UPDATE_CONTENT") {
            Action::UpdateContent
        } else if is_text(&t, "EVICT_ENTITY") {
            Action::EvictEntity
        } else if is_text(&t, "EVICT_ENTITY_ID") {
            Action::EvictEntityId
        } else {
            Action::Error
        }
    }
}

impl From<String> for Action {
    fn from(val: String) -> (r: Action) {
        Action::from_text(val.as_str())
    }
}

impl vstd::std_specs::convert::FromSpecImpl<String> for Action {
    open spec fn obeys_from_spec() -> bool {
        true
    }

    open spec fn from_spec(v: String) -> Action {
        action_of(v@)
    }
}

/// Reading back the name of any action gives that action.
pub proof fn lemma_action_round_trip(a: Action)
    ensures
        action_of(action_text(a)) == a,
{
    reveal_strlit("READ");
    reveal_strlit("CREATE_ENTITY");
    reveal_strlit("INSERT");
    reveal_strlit("DELETE");
    reveal_strlit("UPDATE_SET");
    reveal_strlit("UPDATE_CONTENT");
    reveal_strlit("EVICT_ENTITY");
    reveal_strlit("EVICT_ENTITY_ID");
    reveal_strlit("Error");
    assert("READ"@.len() == 4);
    assert("CREATE_ENTITY"@.len() == 13);
    assert("INSERT"@.len() == 6 && "INSERT"@[0] == 'I');
    assert("DELETE"@.len() == 6 && "DELETE"@[0] == 'D');
    assert("UPDATE_SET"@.len() == 10);
    assert("UPDATE_CONTENT"@.len() == 14);
    assert("EVICT_ENTITY"@.len() == 12);
    assert("EVICT_ENTITY_ID"@.len() == 15);
}

} // verus!
