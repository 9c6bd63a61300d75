//! Project-scoped key/value secret store: the search query compiler and the
//! plain data types that the request handlers exchange with it.
//!
//! The heart of the crate is [`lucene_parser`]: a small Lucene-inspired boolean
//! query language (terms, phrases, key:value pairs, AND/OR/NOT, grouping) is
//! parsed into an expression tree and rendered into a SQL boolean expression
//! over a two-column value store (`secret_key`, `secret_value`).

use vstd::prelude::*;

pub mod lucene_parser;

verus! {

/// First value associated with `key` in an association list, if any.
pub open spec fn assoc_lookup(entries: Seq<(String, String)>, key: Seq<char>) -> Option<Seq<char>>
    decreases entries.len(),
{
    if entries.len() == 0 {
        None
    } else if entries[0].0@ == key {
        Some(entries[0].1@)
    } else {
        assoc_lookup(entries.drop_first(), key)
    }
}

/// Named SQL statements loaded from configuration, looked up by name.
///
/// Held as an association list of `(name, statement)` pairs; a lookup returns
/// the statement of the first pair whose name matches.
#[derive(Debug, Clone)]
pub struct Queries(pub Vec<(String, String)>);

impl Queries {
    /// The statement stored under `key`, or an error message naming the
    /// missing statement.
    pub fn get(&self, key: &str) -> (r: Result<&str, String>)
        ensures
            match assoc_lookup(self.0@, key@) {
                Some(v) => r matches Ok(s) && s@ == v,
                None => r matches Err(m) && m@ == "Missing query '"@ + key@ + "'"@,
            },
    {
        let n = self.0.len();
        let mut i: usize = 0;
        proof {
            assert(self.0@.skip(0) =~= self.0@);
        }
        while i < n
            invariant
                n == self.0@.len(),
                0 <= i <= n,
                assoc_lookup(self.0@, key@) == assoc_lookup(self.0@.skip(i as int), key@),
            decreases n - i,
        {
            let entry = &self.0[i];
            proof {
                assert(self.0@.skip(i as int)[0] == self.0@[i as int]);
                assert(self.0@.skip(i as int).drop_first() =~= self.0@.skip(i as int + 1));
            }
            if crate::lucene_parser::str_eq(entry.0.as_str(), key) {
                return Ok(self.0[i].1.as_str());
            }
            i = i + 1;
        }
        proof {
            assert(self.0@.skip(n as int) =~= Seq::<(String, String)>::empty());
        }
        let mut msg = String::new();
        msg.append("Missing query '");
        msg.append(key);
        msg.append("'");
        Err(msg)
    }
}

/// A search request body: the optional query string, defaulting to a match-all
/// search when absent.
pub struct SearchInput {
    pub query: Option<String>,
}

/// The project scope a request is authenticated for, taken from its headers.
pub struct ProjectKey(pub String);

impl ProjectKey {
    /// Accepts the project header value when one is present; a missing header
    /// is rejected.
    pub fn from_header(header: Option<String>) -> (r: Result<ProjectKey, ()>)
        ensures
            match header {
                Some(v) => r matches Ok(p) && p.0@ == v@,
                None => r is Err,
            },
    {
        match header {
            Some(v) => Ok(ProjectKey(v)),
            None => Err(()),
        }
    }
}

/// Proof of read access: the presented API key matched the read or the write
/// master key.
pub struct ReadAuth;

impl ReadAuth {
    /// Grants read access exactly when the presented key equals one of the two
    /// master keys.
    pub fn authorize(presented: Option<&str>, read_key: &str, write_key: &str) -> (r: Result<
        ReadAuth,
        (),
    >)
        ensures
            r is Ok <==> (presented matches Some(k) && (k@ == read_key@ || k@ == write_key@)),
    {
        match presented {
            Some(k) => {
                if crate::lucene_parser::str_eq(k, read_key) || crate::lucene_parser::str_eq(
                    k,
                    write_key,
                ) {
                    Ok(ReadAuth)
                } else {
                    Err(())
                }
            },
            None => Err(()),
        }
    }
}

/// Proof of write access: the presented API key matched the write master key.
pub struct WriteAuth;

impl WriteAuth {
    /// Grants write access exactly when the presented key equals the write
    /// master key.
    pub fn authorize(presented: Option<&str>, write_key: &str) -> (r: Result<WriteAuth, ()>)
        ensures
            r is Ok <==> (presented matches Some(k) && k@ == write_key@),
    {
        match presented {
            Some(k) => {
                if crate::lucene_parser::str_eq(k, write_key) {
                    Ok(WriteAuth)
                } else {
                    Err(())
                }
            },
            None => Err(()),
        }
    }
}

} // verus!
