//! The storage core of a multi-model database: an order-preserving byte
//! encoding of hierarchical keys (namespace, database, table), the range
//! bounds that bracket one subtree of that hierarchy, and a transaction
//! abstraction over interchangeable storage backends.

pub mod err;
pub mod key;
pub mod kvs;
