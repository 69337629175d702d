//! Encodes an operating-system file path into a reversible sequence of
//! Unicode characters that is safe to use as a single filename component,
//! and decodes such a filename back into the original path.

mod codec;
mod escape;
mod platform;
mod text;

pub use text::is_alpha;
pub use codec::Error;
pub use codec::to_filename;
pub use codec::to_filename_from_str;
pub use codec::to_path;
pub use codec::to_path_from_str;
pub use codec::to_filename_spec;
pub use codec::to_path_spec;
pub use codec::encode_prefix;
pub use codec::render_root;
pub use codec::lemma_round_trip_home;
pub use codec::lemma_round_trip_drive;
pub use codec::lemma_round_trip_plain;
pub use codec::lemma_no_accidental_prefix;
pub use platform::Platform;
pub use platform::RootDir;
pub use platform::marker_icon;
pub use platform::sep_char;
pub use platform::root_icon;
pub use platform::marker_platform;
pub use platform::icon_root;
pub use platform::home_dir;
pub use platform::home_prefix;
pub use platform::drive_dir;
pub use platform::drive_prefix;
pub use platform::subdir_name;
pub use platform::match_home;
pub use platform::match_drive;
pub use platform::sniff_platform;
pub use platform::first_subdir;
pub use platform::match_subdir_at;
pub use platform::is_subdir;
pub use platform::valid_volume;
pub use platform::platform_matches;
pub use platform::match_prefixed;
pub use platform::sep_free_len;

pub use escape::escape_char;
pub use escape::escape_text;
pub use escape::unescape_text;
pub use escape::component_split;
pub use escape::first_item_is_sep;
pub use escape::run_safe;
pub use escape::lemma_unescape_escape;
pub use escape::lemma_unescape_escape_concat;
pub use escape::lemma_component_split_escape;
pub use escape::lemma_self_escape_doubling;
pub use escape::lemma_doubled_collapse;
pub use escape::escaped_of;
pub use escape::target_of;
pub use escape::is_escape_target;
pub use escape::is_escaped_output;
