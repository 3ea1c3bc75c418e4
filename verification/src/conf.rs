//! The static configuration: limit rules, and the settings of the store's
//! connection pool and of the server that sizes and secures them.

use crate::table::Table;
use vstd::prelude::*;

verus! {

/// A limit recipe.
pub struct Rule {
    /// `[max count, period in ms, max burst, burst period in ms]`; the last
    /// two may be left out.
    pub limit: Vec<u64>,
    /// What a call costs on a path that `path` does not list.
    pub quantity: u64,
    /// What a call costs, path by path.
    pub path: Table<u64>,
}

/// What a rule says, as plain mathematical values.
pub ghost struct RuleView {
    pub limit: Seq<u64>,
    pub quantity: u64,
    pub path: Map<Seq<char>, u64>,
}

impl View for Rule {
    type V = RuleView;

    open spec fn view(&self) -> RuleView {
        RuleView { limit: self.limit@, quantity: self.quantity, path: self.path@ }
    }
}

impl Rule {
    /// The path costs form a well-formed table.
    pub open spec fn wf(&self) -> bool {
        self.path.wf()
    }
}

impl Clone for Rule {
    /// A copy that says the same as the rule itself.
    fn clone(&self) -> (r: Self)
        ensures
            self.wf() ==> r.wf() && r@ == self@,
    {
        Rule { limit: self.limit.clone(), quantity: self.quantity, path: self.path.clone() }
    }
}

/// How many connections the pool to the store keeps.
#[derive(PartialEq, Eq, Structural, Debug, Clone, Copy)]
pub struct PoolSize {
    /// The most connections that are open at once.
    pub max_size: u32,
    /// The connections that stay open while idle.
    pub min_idle: u32,
}

/// Where the store is, and how to log in.
pub struct Redis {
    pub host: String,
    pub port: u16,
    pub username: String,
    pub password: String,
    /// The most connections to open; 0 asks for the default of 10.
    pub max_connections: u16,
}

impl Redis {
    /// The pool size that `max_connections` asks for.
    pub open spec fn spec_pool_size(max_connections: u16) -> PoolSize {
        let max_size: u32 = if max_connections > 0 {
            max_connections as u32
        } else {
            10
        };
        PoolSize { max_size, min_idle: if max_size <= 10 { 1 } else { (max_size / 10) as u32 } }
    }

    /// The size of the connection pool: at most `max_connections` (10 where
    /// that is 0), of which a tenth, and at least one, stays open while idle.
    pub fn pool_size(&self) -> (p: PoolSize)
        ensures
            p == Self::spec_pool_size(self.max_connections),
            1 <= p.min_idle <= p.max_size,
    {
        let max_size: u32 = if self.max_connections > 0 {
            self.max_connections as u32
        } else {
            10
        };
        let min_idle: u32 = if max_size <= 10 {
            1
        } else {
            max_size / 10
        };
        PoolSize { max_size, min_idle }
    }
}

/// Where the server listens, and the files of its TLS identity.
pub struct Server {
    pub port: u16,
    pub cert_file: String,
    pub key_file: String,
}

impl Server {
    /// Whether the server speaks TLS: only when both files are named.
    pub fn uses_tls(&self) -> (b: bool)
        ensures
            b == (self.key_file@.len() > 0 && self.cert_file@.len() > 0),
    {
        !(self.key_file.as_str().is_empty() || self.cert_file.as_str().is_empty())
    }
}

} // verus!
