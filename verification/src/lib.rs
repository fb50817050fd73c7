//! An incremental `git blame` engine: per-commit diffs become ascending
//! line-range pairs, which compose into monotone line-number maps and
//! attribute every line of a file snapshot to the commit that last touched it.

pub mod commit_id;
pub mod commit_time;
pub mod diff_part;
pub mod diff_read;
pub mod diff_text;
pub mod errors;
pub mod file_commit;
pub mod file_commits;
pub mod file_content;
pub mod file_history;
pub mod git_diff_line;
pub mod line;
pub mod line_number_map;
pub mod line_read_buffer;
pub mod text;
pub mod viewport;
