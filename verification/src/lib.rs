pub mod annotations;
pub mod astarlike;
pub mod astarlike2;
pub mod consensus_finding;
pub mod corpus_files;
pub mod demixing;
pub mod dictionary;
pub mod edit_distance;
pub mod fea_parsing;
pub mod genastarlike;
pub mod glyphs;
pub mod hbshape;
pub mod high_level_substitutions;
pub mod high_level_substitutions2;
pub mod ipa;
pub mod keyed_queue;
pub mod numbering;
pub mod readlex;
pub mod seqs;
pub mod substitutions;
pub mod substitutions2;
pub mod text;
