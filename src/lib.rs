//! Storage of graph edges: the adjacency entries, the graph count and the
//! edge fields that a relate mutation leaves behind, inside one transaction.

pub mod doc;
pub mod edges;
pub mod err;
pub mod key;
pub mod laws;
pub mod txn;
