use vstd::prelude::*;

pub mod batch;
pub mod claim;
pub mod claim_laws;
pub mod claim_steps;
pub mod commit;
pub mod commit_laws;
pub mod commit_steps;
pub mod digest;
pub mod encoding;
pub mod encoding_laws;
pub mod error;
pub mod id;
pub mod input_laws;
pub mod job_laws;
pub mod jobs;
pub mod lease;
pub mod listing;
pub mod listing_laws;
pub mod load;
pub mod node;
pub mod node_error;
pub mod node_input;
pub mod node_laws;
pub mod node_output;
pub mod operation_laws;
pub mod plan;
pub mod plan_laws;
pub mod recovery;
pub mod recovery_laws;
pub mod row;
pub mod rows;
pub mod seqs;
pub mod state;
pub mod steps;
pub mod storage_laws;
pub mod store;
pub mod tables;
pub mod text;
pub mod transitions;
pub mod value_laws;
pub mod values;

verus! {

} // verus!
