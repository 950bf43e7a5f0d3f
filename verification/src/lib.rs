//! A small command-line argument parsing library, verified with Verus.
//!
//! A caller declares flags in a registry (`ArgParser::add_arg`), attaches
//! metadata to the most recently declared batch (`help`, `default_value`,
//! `expected_type`), runs the token-stream parser once over the invocation
//! arguments (`parse`), and then queries the typed value store per flag
//! (`get`).

mod constants;
mod defaults;
mod errors;
mod helpgen;
mod laws;
mod parse;
mod registry;
mod retrieve;
mod settings;
mod store;
mod strutil;
mod value;

pub use constants::ARG_DEFAULT;
pub use constants::ARG_MULTIPLE;
pub use constants::ARG_REQUIRED;
pub use constants::ARG_REQUIRES_NEXT;
pub use defaults::absent_of;
pub use defaults::find_2d;
pub use defaults::find_batch;
pub use defaults::gen_defaults_spec;
pub use defaults::insert_index_of;
pub use errors::GetError;
pub use errors::ParserError;
pub use helpgen::batch_text;
pub use helpgen::batches_text;
pub use helpgen::blen;
pub use helpgen::header_text;
pub use helpgen::help_text;
pub use helpgen::help_width;
pub use helpgen::max_blen;
pub use helpgen::row_text;
pub use helpgen::spaces;
pub use laws::lemma_default_round_trip;
pub use laws::lemma_duplicate_aborts;
pub use laws::lemma_duplicate_declaration_rejected;
pub use laws::lemma_repeated_flag_rejected;
pub use laws::lemma_required_not_met;
pub use laws::lemma_requires_next_at_end;
pub use laws::lemma_retrieve_no_merge;
pub use laws::lemma_scan_appends_only;
pub use laws::lemma_scan_required_persists;
pub use laws::lemma_scan_untouched;
pub use parse::added_of;
pub use parse::apply_scan;
pub use parse::init_scan;
pub use parse::mark_matched;
pub use parse::outcome_state;
pub use parse::prepass;
pub use parse::push_added;
pub use parse::push_other;
pub use parse::scan;
pub use parse::scan_final;
pub use parse::scan_verdict;
pub use parse::ScanOutcome;
pub use parse::ScanState;
pub use registry::ArgParser;
pub use registry::PInfo;
pub use registry::ParserModel;
pub use retrieve::get_spec;
pub use settings::EventPhrases;
pub use settings::Settings;
pub use store::fresh_arg;
pub use store::keys_unique;
pub use store::reg_of;
pub use store::ArgModel;
pub use store::Argument;
pub use store::Binding;
pub use strutil::strset;
pub use strutil::views_unique;
pub use value::models_of;
pub use value::ArgValue;
pub use value::TypeTag;
pub use value::ValueModel;
