//! Resolution of noisy, multi-variant anime titles to canonical catalog
//! identities, with download-rule generation keyed to the resolved identity.
//!
//! The pipeline aggregates candidate records from a metadata catalog for every
//! keyword variant of a work, batches the resulting matching tasks, frames one
//! structured request per batch for an AI classifier, enforces a hard
//! confidence threshold on the classifier's answers, and joins the accepted
//! identities back onto the works in their original order.  All network and
//! terminal I/O lives outside this crate; the functions here are the decision
//! and framing logic around it.

pub mod bangumi;
pub mod dates;
pub mod matcher;
pub mod models;
pub mod rules_qb;
pub mod table;
pub mod text;
