//! The request for a documentation snapshot.
use vstd::prelude::*;
use crate::collector::{clone_strings, CollectOptions};
use crate::model::DatabaseType;
use crate::text::{chars_eq, chars_of, push_str, string_of, string_views};

verus! {

/// What a client asks to document.
#[derive(Debug)]
pub struct DocsSnapshotRequest {
    pub connection_id: String,
    pub database: String,
    pub schemas: Vec<String>,
    pub tables: Vec<String>,
    pub project_name: Option<String>,
}

impl DocsSnapshotRequest {
    /// The collection options: the requested database, schemas and tables,
    /// and the requested project name or else the connection's name.
    pub fn to_options(&self, connection_name: &str) -> (r: CollectOptions)
        ensures
            r.database@ == self.database@,
            string_views(r.schemas@) == string_views(self.schemas@),
            string_views(r.tables@) == string_views(self.tables@),
            r.project_name@ == match self.project_name {
                Some(n) => n@,
                None => connection_name@,
            },
    {
        let project_name = match &self.project_name {
            Some(n) => n.clone(),
            None => string_of(&chars_of(connection_name)),
        };
        CollectOptions {
            database: self.database.clone(),
            schemas: clone_strings(&self.schemas),
            tables: clone_strings(&self.tables),
            project_name,
        }
    }
}

/// A saved connection.
#[derive(Debug, Clone)]
pub struct ConnectionConfig {
    pub id: String,
    pub name: String,
    pub db_type: DatabaseType,
}

/// The error for a connection id that no saved connection has.
pub open spec fn connection_not_found(id: Seq<char>) -> Seq<char> {
    "Connection with id '"@ + id + "' not found"@
}

/// `i` is the position of the first connection with the given id.
pub open spec fn first_with_id(configs: Seq<ConnectionConfig>, id: Seq<char>, i: int) -> bool {
    0 <= i < configs.len() && configs[i].id@ == id && forall|j: int|
        0 <= j < i ==> #[trigger] configs[j].id@ != id
}

/// The position of the first connection whose id is `wanted`.
fn position_of(configs: &Vec<ConnectionConfig>, wanted: &Vec<char>) -> (r: Option<usize>)
    ensures
        match r {
            Some(i) => first_with_id(configs@, wanted@, i as int),
            None => forall|j: int| 0 <= j < configs@.len() ==> #[trigger] configs@[j].id@ != wanted@,
        },
{
    let n = configs.len();
    for i in 0..n
        invariant
            n == configs@.len(),
            forall|j: int| 0 <= j < i ==> #[trigger] configs@[j].id@ != wanted@,
    {
        let id = chars_of(configs[i].id.as_str());
        if chars_eq(&id, wanted) {
            return Some(i);
        }
    }
    None
}

/// The first saved connection with the given id, or the error naming the
/// id when there is none.
pub fn find_connection(configs: Vec<ConnectionConfig>, connection_id: &str) -> (r: Result<ConnectionConfig, String>)
    ensures
        match r {
            Ok(c) => exists|i: int| #[trigger] first_with_id(configs@, connection_id@, i) && c == configs@[i],
            Err(e) => e@ == connection_not_found(connection_id@) && forall|j: int|
                0 <= j < configs@.len() ==> #[trigger] configs@[j].id@ != connection_id@,
        },
{
    let wanted = chars_of(connection_id);
    match position_of(&configs, &wanted) {
        Some(i) => {
            let ghost all = configs@;
            let mut configs = configs;
            let c = configs.remove(i);
            assert(first_with_id(all, connection_id@, i as int) && c == all[i as int]);
            Ok(c)
        },
        None => {
            let mut msg = chars_of("Connection with id '");
            push_str(&mut msg, connection_id);
            push_str(&mut msg, "' not found");
            Err(string_of(&msg))
        },
    }
}

} // verus!
