//! The replication identity of the running server.

use vstd::prelude::*;
use vstd::string::*;
use crate::resp::text::{decimal, usize_to_string};

verus! {

/// The replication identity: whom the server replicates, under what
/// replication id it serves, and how far its replication stream has come.
pub struct Info {
    /// The address of the master, when the server is a replica.
    pub replicaof: Option<String>,
    pub master_replid: String,
    pub master_repl_offset: usize,
}

/// The mathematical content of an `Info`.
pub struct InfoView {
    pub replicaof: Option<Seq<char>>,
    pub master_replid: Seq<char>,
    pub master_repl_offset: nat,
}

impl View for Info {
    type V = InfoView;

    open spec fn view(&self) -> InfoView {
        InfoView {
            replicaof: match self.replicaof {
                Some(address) => Some(address@),
                None => None,
            },
            master_replid: self.master_replid@,
            master_repl_offset: self.master_repl_offset as nat,
        }
    }
}

/// The role of a server: a replica when it has a master, else a master.
pub open spec fn role_of(info: InfoView) -> Seq<char> {
    if info.replicaof is Some {
        "slave"@
    } else {
        "master"@
    }
}

/// The replication section: one `name:value` line for each of the role, the
/// replication id and the replication offset.
pub open spec fn info_text(info: InfoView) -> Seq<char> {
    "role:"@ + role_of(info) + "\n"@ + "master_replid:"@ + info.master_replid + "\n"@
        + "master_repl_offset:"@ + decimal(info.master_repl_offset) + "\n"@
}

impl Info {
    /// The replication section as text.
    pub fn to_string(&self) -> (text: String)
        ensures
            text@ == info_text(self@),
    {
        let role = if self.replicaof.is_some() {
            "slave"
        } else {
            "master"
        };
        let offset = usize_to_string(self.master_repl_offset);
        let mut text = String::from_str("role:");
        text.append(role);
        text.append("\n");
        text.append("master_replid:");
        text.append(self.master_replid.as_str());
        text.append("\n");
        text.append("master_repl_offset:");
        text.append(offset.as_str());
        text.append("\n");
        text
    }
}

} // verus!
