//! Long-term memory for coding agents: the rules of the store.

pub mod answer_laws;
pub mod archive_laws;
pub mod batch_laws;
pub mod batches;
pub mod binary64;
pub mod challenge;
pub mod config;
pub mod decay;
pub mod detail_laws;
pub mod display_laws;
pub mod env;
pub mod epistemic;
pub mod error;
pub mod index_laws;
pub mod json;
pub mod listing_laws;
pub mod lookup_laws;
pub mod manifest;
pub mod memory;
pub mod normalize;
pub mod order;
pub mod outcome_laws;
pub mod path;
pub mod plan_laws;
pub mod preview;
pub mod project_list_grouping;
pub mod provenance;
pub mod read_back;
pub mod reading_laws;
pub mod recall;
pub mod record_laws;
pub mod reindex;
pub mod seqs;
pub mod sessions;
pub mod setting_laws;
pub mod sort;
pub mod store;
pub mod store_laws;
pub mod task_laws;
pub mod task_state;
pub mod term_laws;
pub mod terminal;
pub mod text;
pub mod text_laws;
pub mod time;
pub mod title_strategy;
pub mod transcript_archive;
pub mod transcript_laws;
pub mod transcripts;
pub mod update_laws;
pub mod value_laws;
pub mod worktree;
pub mod write_laws;
pub mod writes;
