use crate::text::text_is;
use vstd::prelude::*;

verus! {

/// The severity thresholds a log output can be set to.
#[derive(Clone, Copy, Debug, PartialEq, Eq, Structural)]
pub enum LevelFilter {
    Off,
    Error,
    Warn,
    Info,
    Debug,
    Trace,
}

/// The level a level name stands for, or `default` for any other name.
pub open spec fn level_of(level: Seq<char>, default: LevelFilter) -> LevelFilter {
    if level == "debug"@ {
        LevelFilter::Debug
    } else if level == "info"@ {
        LevelFilter::Info
    } else if level == "warn"@ {
        LevelFilter::Warn
    } else if level == "error"@ {
        LevelFilter::Error
    } else {
        default
    }
}

pub fn str_to_level(level: &str, default: LevelFilter) -> (r: LevelFilter)
    ensures
        r == level_of(level@, default),
{
    if text_is(level, "debug") {
        LevelFilter::Debug
    } else if text_is(level, "info") {
        LevelFilter::Info
    } else if text_is(level, "warn") {
        LevelFilter::Warn
    } else if text_is(level, "error") {
        LevelFilter::Error
    } else {
        default
    }
}

/// Where log records go besides the console.
#[derive(Clone, Copy, Debug, PartialEq, Eq, Structural)]
pub enum FileOutput {
    /// Console only.
    NoFile,
    /// One file that grows without bound.
    Plain,
    /// A file rolled over at a size limit, with a fixed number of old files kept.
    Rolling,
}

/// The settings of the process's logging.
pub struct LogBuilder {
    pub m_console_level: LevelFilter,
    pub m_file_level: LevelFilter,
    pub m_filename: String,
    pub m_filesize_limit: u64,
    pub m_file_count: u32,
}

impl LogBuilder {
    pub fn new() -> (r: LogBuilder)
        ensures
            r.m_console_level == LevelFilter::Info,
            r.m_file_level == LevelFilter::Debug,
            r.m_filename@ == Seq::<char>::empty(),
            r.m_filesize_limit == 0,
            r.m_file_count == 3,
    {
        LogBuilder {
            m_console_level: LevelFilter::Info,
            m_file_level: LevelFilter::Debug,
            m_filename: String::new(),
            m_filesize_limit: 0,
            m_file_count: 3,
        }
    }

    pub fn with_log_file(self, filename: &str) -> (r: LogBuilder)
        ensures
            r.m_filename@ == filename@,
            r.m_console_level == self.m_console_level,
            r.m_file_level == self.m_file_level,
            r.m_filesize_limit == self.m_filesize_limit,
            r.m_file_count == self.m_file_count,
    {
        LogBuilder { m_filename: filename.to_string(), ..self }
    }

    pub fn with_console_level(self, level: &str) -> (r: LogBuilder)
        ensures
            r.m_console_level == level_of(level@, self.m_console_level),
            r.m_filename == self.m_filename,
            r.m_file_level == self.m_file_level,
            r.m_filesize_limit == self.m_filesize_limit,
            r.m_file_count == self.m_file_count,
    {
        let l = str_to_level(level, self.m_console_level);
        LogBuilder { m_console_level: l, ..self }
    }

    pub fn with_file_level(self, level: &str) -> (r: LogBuilder)
        ensures
            r.m_file_level == level_of(level@, self.m_file_level),
            r.m_filename == self.m_filename,
            r.m_console_level == self.m_console_level,
            r.m_filesize_limit == self.m_filesize_limit,
            r.m_file_count == self.m_file_count,
    {
        let l = str_to_level(level, self.m_file_level);
        LogBuilder { m_file_level: l, ..self }
    }

    pub fn with_filesize_limit(self, sz: u64) -> (r: LogBuilder)
        ensures
            r.m_filesize_limit == sz,
            r.m_filename == self.m_filename,
            r.m_console_level == self.m_console_level,
            r.m_file_level == self.m_file_level,
            r.m_file_count == self.m_file_count,
    {
        LogBuilder { m_filesize_limit: sz, ..self }
    }

    pub fn with_file_count(self, num: u32) -> (r: LogBuilder)
        ensures
            r.m_file_count == num,
            r.m_filename == self.m_filename,
            r.m_console_level == self.m_console_level,
            r.m_file_level == self.m_file_level,
            r.m_filesize_limit == self.m_filesize_limit,
    {
        LogBuilder { m_file_count: num, ..self }
    }

    /// The file output the settings ask for: none without a file name, a
    /// rolling file where a size limit is set, else a plain file.
    pub fn file_output(&self) -> (r: FileOutput)
        ensures
            r == (if self.m_filename@.len() == 0 {
                FileOutput::NoFile
            } else if self.m_filesize_limit > 0 {
                FileOutput::Rolling
            } else {
                FileOutput::Plain
            }),
    {
        if self.m_filename.as_str().unicode_len() == 0 {
            FileOutput::NoFile
        } else if self.m_filesize_limit > 0 {
            FileOutput::Rolling
        } else {
            FileOutput::Plain
        }
    }

    /// The threshold of the root logger: with a file output it lets every
    /// record through to the outputs' own filters, else it is the console's.
    pub fn root_level(&self) -> (r: LevelFilter)
        ensures
            r == (if self.m_filename@.len() == 0 {
                self.m_console_level
            } else {
                LevelFilter::Debug
            }),
    {
        if self.m_filename.as_str().unicode_len() == 0 {
            self.m_console_level
        } else {
            LevelFilter::Debug
        }
    }
}

} // verus!
