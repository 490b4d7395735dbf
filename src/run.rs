//! Run-level settings and decisions: the options of one run, the working
//! directory to go back to, the compressor's thread count, and the notice
//! left where a compressed entry was.
use vstd::prelude::*;
use crate::plan::RET_DIR_ERROR;

verus! {

/// The options of one run.
pub struct Args {
    /// Directory whose entries are processed.
    pub directory_start: String,
    /// Only walk and report; create and delete nothing.
    pub dryrun: bool,
    /// Glob pattern of entry names to leave out.
    pub exclude: Option<String>,
    /// Regular expression of entry names to leave out.
    pub excludere: Option<String>,
    /// Extract archives instead of compressing entries.
    pub extract: bool,
    /// Leave a completion-flag notice for each compressed entry.
    pub flag: bool,
    /// Glob pattern of entry names to take (all when no pattern is given).
    pub include_glob: Option<String>,
    /// Regular expression of entry names to take.
    pub includere: Option<String>,
    /// Depth of the directory listings (4 when not given).
    pub leveldir: Option<u8>,
    /// Keep the originals after compressing or extracting.
    pub preserve: bool,
    /// Print errors only.
    pub quiet: bool,
    /// Output directory (the start directory when not given).
    pub target: Option<String>,
    /// Print detailed progress.
    pub verbose: bool,
    /// Compression level (5 when not given).
    pub zstdlevel: Option<i32>,
}

impl Args {
    /// Depth limit of the directory listings.
    pub fn level_tree(&self) -> (r: u8)
        ensures
            r == match self.leveldir {
                Some(l) => l,
                None => 4u8,
            },
    {
        match self.leveldir {
            Some(l) => l,
            None => 4,
        }
    }

    /// Compression level.
    pub fn zstd_level(&self) -> (r: i32)
        ensures
            r == match self.zstdlevel {
                Some(l) => l,
                None => 5i32,
            },
    {
        match self.zstdlevel {
            Some(l) => l,
            None => 5,
        }
    }

    /// Whether the run compresses (otherwise it extracts).
    pub fn compress(&self) -> (r: bool)
        ensures
            r == !self.extract,
    {
        !self.extract
    }

    /// Directory the archives and their artifacts go to.
    pub fn target_dir(&self) -> (r: String)
        ensures
            r@ == match self.target {
                Some(t) => t@,
                None => self.directory_start@,
            },
    {
        match &self.target {
            Some(t) => t.clone(),
            None => self.directory_start.clone(),
        }
    }
}

/// The working directory to restore when a run ends, whichever way it ends.
pub struct DirGuard {
    original: String,
}

impl DirGuard {
    pub closed spec fn original_dir(&self) -> Seq<char> {
        self.original@
    }

    /// A guard for a run that entered its start directory after reading the
    /// working directory `original`: the directory error when the working
    /// directory could not be read or the start directory not entered.
    pub fn new(original: Option<String>, entered: bool) -> (r: Result<DirGuard, u8>)
        ensures
            r is Ok <==> (original is Some && entered),
            r matches Ok(g) ==> original matches Some(o) && g.original_dir() == o@,
            r matches Err(c) ==> c == RET_DIR_ERROR,
    {
        match original {
            Some(o) => {
                if entered {
                    Ok(DirGuard { original: o })
                } else {
                    Err(RET_DIR_ERROR)
                }
            },
            None => Err(RET_DIR_ERROR),
        }
    }

    /// The directory to go back to.
    pub fn original(&self) -> (r: &String)
        ensures
            r@ == self.original_dir(),
    {
        &self.original
    }
}

/// Threads the compressor uses on a machine with `cpus` hardware threads:
/// half of them on a machine with more than 20, otherwise 10.
pub fn compression_workers(cpus: u32) -> (r: u32)
    ensures
        r == if cpus / 2 > 10 {
            cpus / 2
        } else {
            10
        },
        cpus > 21 ==> r == cpus / 2,
        cpus <= 21 ==> r == 10,
{
    let half = cpus / 2;
    if half > 10 {
        half
    } else {
        10
    }
}

pub open spec fn notice_head() -> Seq<char> {
    "- This is a notice left by batch archiving\n\n    - The original data was compressed and may have moved to:\n      "@
}

pub open spec fn notice_tail() -> Seq<char> {
    "\n"@
}

/// Text of the completion-flag notice for an archive shown as `archive`.
pub open spec fn flag_notice(archive: Seq<char>) -> Seq<char> {
    notice_head() + archive + notice_tail()
}

/// The completion-flag notice, recording where the archive went.
pub fn flag_message(archive: &str) -> (r: String)
    ensures
        r@ == flag_notice(archive@),
{
    let head = "- This is a notice left by batch archiving\n\n    - The original data was compressed and may have moved to:\n      ";
    let r = String::from_str(head).concat(archive).concat("\n");
    r
}

} // verus!
