//! Building blocks of a reference-database rebuild: a dense taxonomy index,
//! rank-wise lowest-common-ancestor consensus over grouped observations, and
//! the row fan-out that turns protein records into relational table rows,
//! with the record readers and bookkeeping around them.
//!
//! - `taxonomy`: the lineage table, indexed by taxon id.
//! - `lca`: the consensus of a group of taxa, and its laws.
//! - `aggregate`: streaming consensus per run of equal sequences.
//! - `fanout`: validated records to entry, peptide and cross-reference rows.
//! - `digest`: candidate peptides of a protein sequence.
//! - `tabular`, `naming`: reading protein records, and writing them as fields.
//! - `datasets`, `database`, `lines`: dataset bookkeeping, database commands,
//!   and joins of id-keyed line files.
//! - `text`: characters, splitting, trimming and decimal numbers.

pub mod text;
pub mod taxonomy;
pub mod lca;
pub mod aggregate;
pub mod fanout;
pub mod datasets;
pub mod lines;
pub mod database;
pub mod tabular;
pub mod naming;
pub mod digest;
