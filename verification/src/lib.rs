//! Merkle trees over the rows of CSV files.
//!
//! Each row of a CSV file has a digest, SHA-256 of its canonical line. The
//! digests can be stored behind the rows ([`hash_csv`]) and read again
//! ([`read_hashes_from_sha_csv`]); over them stands a Merkle tree
//! ([`build_tree_from_leaves`]), which can be shown as a page
//! ([`write_merkle_tree_html`]) or drawn ([`png_layout`]).
pub mod csv_rows;
pub mod csv_text;
pub mod digest;
pub mod errors;
pub mod hex_text;
pub mod html;
pub mod paths;
pub mod png;
pub mod report;
pub mod sha_csv;
pub mod text;
pub mod tree;
pub mod tree_laws;

pub use csv_rows::record_to_canonical_csv_line;
pub use digest::{hash_pair, sha256};
pub use hex_text::short_hex;
pub use html::{write_detailed_merkle_tree_html, write_merkle_tree_html};
pub use paths::sha_csv_path_for_input;
pub use png::png_layout;
pub use sha_csv::{hash_csv, leaves_from_csv, read_hashes_from_sha_csv};
pub use tree::{build_tree_from_leaves, Node, Tree};
