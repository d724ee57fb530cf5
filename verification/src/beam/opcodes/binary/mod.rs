//! Matching and building binaries.
pub mod bs_append;
pub mod bs_context_to_binary;
pub mod bs_create_bin;
pub mod bs_init_bits;
pub mod bs_match;
pub mod bs_match_string;
pub mod bs_position;
pub mod bs_put_string;
pub mod bs_test_unit;
pub mod bs_utf8;
