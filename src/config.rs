use vstd::prelude::*;
use crate::similarity::Fraction;
use crate::text::{seq_ends_with, str_ends_with};

verus! {

/// The options of one run, fixed before any file is read.
pub struct Config {
    pub exclude_trace: bool,
    pub start_date: Option<i64>,
    pub end_date: Option<i64>,
    pub directory_mode: Option<String>,
    pub current_directory_mode: bool,
    pub similarity_threshold: Option<Fraction>,
    pub search: Option<String>,
    pub use_filter_file: bool,
    pub file_path: Option<String>,
    pub filter_file_path: Option<String>,
    pub count_mode: bool,
}

/// Where the files of a run come from.
pub enum InputSelection {
    CurrentDirectory,
    Directory(String),
    SingleFile(String),
}

/// The file name has extension `ext`: it ends with `.` and `ext`, and
/// something stands before that dot.
pub open spec fn has_extension(name: Seq<char>, ext: Seq<char>) -> bool {
    seq_ends_with(name, seq!['.'] + ext) && name.len() > ext.len() + 1
}

/// A file name marks a gzip-compressed log.
pub open spec fn is_compressed_name(name: Seq<char>) -> bool {
    has_extension(name, seq!['g', 'z'])
}

/// A file name marks a log a directory scan takes in: compressed or plain.
pub open spec fn is_log_name(name: Seq<char>) -> bool {
    is_compressed_name(name) || has_extension(name, seq!['l', 'o', 'g'])
}

/// True when the file name has the `gz` extension: its lines are read
/// through a decompressor.
pub fn is_compressed(name: &str) -> (r: bool)
    ensures
        r == is_compressed_name(name@),
{
    proof {
        reveal_strlit(".gz");
    }
    let suffix = ".gz";
    assert(suffix@ =~= seq!['.'] + seq!['g', 'z']);
    str_ends_with(name, suffix) && name.unicode_len() > 3
}

/// True when a directory scan takes the file in: its extension is `gz` or
/// `log`.
pub fn is_log_file(name: &str) -> (r: bool)
    ensures
        r == is_log_name(name@),
{
    proof {
        reveal_strlit(".log");
    }
    let suffix = ".log";
    assert(suffix@ =~= seq!['.'] + seq!['l', 'o', 'g']);
    is_compressed(name) || (str_ends_with(name, suffix) && name.unicode_len() > 4)
}

/// A run that cannot start.
#[derive(Debug, PartialEq, Eq, Structural)]
pub enum ConfigError {
    /// No file, directory or current-directory mode was given.
    MissingInput,
    /// A noise-filter file was asked for without its path.
    MissingFilterPath,
    /// A date bound is not an RFC 3339 date-time.
    BadDate,
}

impl Config {
    /// Where the files come from: the current directory first, then a named
    /// directory, then a single file; an error when none is given.
    pub fn input_selection(&self) -> (r: Result<InputSelection, ConfigError>)
        ensures
            self.current_directory_mode ==> r matches Ok(InputSelection::CurrentDirectory),
            !self.current_directory_mode && self.directory_mode is Some ==>
                (r matches Ok(InputSelection::Directory(d)) && d@ == self.directory_mode->0@),
            !self.current_directory_mode && self.directory_mode is None && self.file_path is Some ==>
                (r matches Ok(InputSelection::SingleFile(p)) && p@ == self.file_path->0@),
            !self.current_directory_mode && self.directory_mode is None && self.file_path is None ==>
                r == Err::<InputSelection, ConfigError>(ConfigError::MissingInput),
    {
        if self.current_directory_mode {
            Ok(InputSelection::CurrentDirectory)
        } else {
            match &self.directory_mode {
                Some(d) => Ok(InputSelection::Directory(d.clone())),
                None => match &self.file_path {
                    Some(p) => Ok(InputSelection::SingleFile(p.clone())),
                    None => Err(ConfigError::MissingInput),
                },
            }
        }
    }

    /// The path of the noise-filter file when one is asked for; an error when
    /// it is asked for without a path.
    pub fn filter_source(&self) -> (r: Result<Option<String>, ConfigError>)
        ensures
            !self.use_filter_file ==> r matches Ok(None),
            self.use_filter_file && self.filter_file_path is Some ==>
                (r matches Ok(Some(p)) && p@ == self.filter_file_path->0@),
            self.use_filter_file && self.filter_file_path is None ==>
                r == Err::<Option<String>, ConfigError>(ConfigError::MissingFilterPath),
    {
        if !self.use_filter_file {
            Ok(None)
        } else {
            match &self.filter_file_path {
                Some(p) => Ok(Some(p.clone())),
                None => Err(ConfigError::MissingFilterPath),
            }
        }
    }

    /// True when the threshold, if any, has a positive denominator.
    pub open spec fn wf(&self) -> bool {
        match self.similarity_threshold {
            Some(t) => t.wf(),
            None => true,
        }
    }
}

} // verus!
