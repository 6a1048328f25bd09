//! Servers of the export.
use crate::json::{text_at, Json, JsonModel};
use vstd::prelude::*;

verus! {

/// One server: its identifier and its display name.
#[derive(Debug)]
pub struct Server {
    pub id: String,
    pub name: String,
}

/// The mathematical value of a [`Server`].
pub struct ServerView {
    pub id: Seq<char>,
    pub name: Seq<char>,
}

impl View for Server {
    type V = ServerView;

    open spec fn view(&self) -> ServerView {
        ServerView { id: self.id@, name: self.name@ }
    }
}

/// The values of a sequence of servers.
pub open spec fn server_views(servers: Seq<Server>) -> Seq<ServerView> {
    Seq::new(servers.len(), |i: int| servers[i]@)
}

/// The server that a JSON value describes: an object whose members `id` and `name` are
/// strings. Other members are passed over.
pub open spec fn server_of(m: JsonModel) -> Option<ServerView> {
    if text_at(m, "id"@) is Some && text_at(m, "name"@) is Some {
        Some(ServerView { id: text_at(m, "id"@)->0, name: text_at(m, "name"@)->0 })
    } else {
        None
    }
}

impl Server {
    /// Decodes a server; `None` where the value does not describe one.
    pub fn from_json(j: &Json) -> (r: Option<Server>)
        ensures
            match r {
                Some(server) => server_of(j@) == Some(server@),
                None => server_of(j@) is None,
            },
    {
        let id = j.text_field("id")?;
        let name = j.text_field("name")?;
        Some(Server { id, name })
    }
}

} // verus!
