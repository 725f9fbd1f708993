//! Parsing strategies, and what each needs of the pipeline.

use vstd::prelude::*;

verus! {

/// How archives are parsed. All strategies find the same addresses; they
/// differ in technique and speed.
#[derive(Debug, Clone, Copy, PartialEq, Eq, Structural)]
pub enum Strategy {
    /// `warc` crate and regular expression on text.
    Baseline,
    /// Custom parser and regular expression on raw bytes.
    Bytes,
    /// Custom parser and substring search.
    Memchr,
    /// Decompress to a file, map it, and search it in place.
    Mmap,
}

/// The parser that handles an archive.
#[derive(Debug, Clone, Copy, PartialEq, Eq, Structural)]
pub enum ParseRoute {
    BaselineFile,
    BytesFile,
    BytesMemory,
    MemchrFile,
    MemchrMemory,
    MmapFile,
}

/// How an archive gets to its parser.
#[derive(Debug, Clone, Copy, PartialEq, Eq, Structural)]
pub enum Acquisition {
    /// Download it into memory.
    ToMemory,
    /// Download it to a file.
    ToDisk,
    /// Use the file that is already there.
    Present,
}

impl Strategy {
    /// Whether the strategy can parse an archive that is held in memory. The
    /// `warc` crate wants a file path, and so does a memory map.
    pub open spec fn streams(self) -> bool {
        self is Bytes || self is Memchr
    }

    /// The text that names the strategy and its technique.
    pub open spec fn description_text(self) -> Seq<char> {
        match self {
            Strategy::Baseline => "baseline (warc crate + regex)"@,
            Strategy::Bytes => "bytes (custom parser + regex::bytes)"@,
            Strategy::Memchr => "memchr (custom parser + SIMD memmem)"@,
            Strategy::Mmap => "mmap (decompress + mmap + SIMD memmem)"@,
        }
    }

    /// The short text that names the strategy and whether it streams.
    pub open spec fn label_text(self, stream_enabled: bool) -> Seq<char> {
        match self {
            Strategy::Baseline => "baseline"@,
            Strategy::Bytes => if stream_enabled {
                "bytes/stream"@
            } else {
                "bytes"@
            },
            Strategy::Memchr => if stream_enabled {
                "memchr/stream"@
            } else {
                "memchr"@
            },
            Strategy::Mmap => "mmap"@,
        }
    }

    /// The parser that the strategy uses, given whether the archive is held in
    /// memory.
    pub open spec fn route(self, in_memory: bool) -> ParseRoute {
        match self {
            Strategy::Baseline => ParseRoute::BaselineFile,
            Strategy::Bytes => if in_memory {
                ParseRoute::BytesMemory
            } else {
                ParseRoute::BytesFile
            },
            Strategy::Memchr => if in_memory {
                ParseRoute::MemchrMemory
            } else {
                ParseRoute::MemchrFile
            },
            Strategy::Mmap => ParseRoute::MmapFile,
        }
    }

    /// Whether to stream, given whether streaming was asked for. A strategy
    /// that cannot stream falls back to files.
    pub fn stream_enabled(self, requested: bool) -> (r: bool)
        ensures
            r == (requested && self.streams()),
    {
        if requested {
            match self {
                Strategy::Baseline | Strategy::Mmap => false,
                Strategy::Bytes | Strategy::Memchr => true,
            }
        } else {
            false
        }
    }

    /// The name of the strategy and its technique.
    pub fn description(self) -> (r: &'static str)
        ensures
            r@ == self.description_text(),
    {
        match self {
            Strategy::Baseline => "baseline (warc crate + regex)",
            Strategy::Bytes => "bytes (custom parser + regex::bytes)",
            Strategy::Memchr => "memchr (custom parser + SIMD memmem)",
            Strategy::Mmap => "mmap (decompress + mmap + SIMD memmem)",
        }
    }

    /// The short name of the strategy, with a mark where it streams.
    pub fn label(self, stream_enabled: bool) -> (r: &'static str)
        ensures
            r@ == self.label_text(stream_enabled),
    {
        match self {
            Strategy::Baseline => "baseline",
            Strategy::Bytes => {
                if stream_enabled {
                    "bytes/stream"
                } else {
                    "bytes"
                }
            },
            Strategy::Memchr => {
                if stream_enabled {
                    "memchr/stream"
                } else {
                    "memchr"
                }
            },
            Strategy::Mmap => "mmap",
        }
    }

    /// The parser to hand an archive to.
    pub fn parse_route(self, in_memory: bool) -> (r: ParseRoute)
        ensures
            r == self.route(in_memory),
    {
        match self {
            Strategy::Baseline => ParseRoute::BaselineFile,
            Strategy::Bytes => {
                if in_memory {
                    ParseRoute::BytesMemory
                } else {
                    ParseRoute::BytesFile
                }
            },
            Strategy::Memchr => {
                if in_memory {
                    ParseRoute::MemchrMemory
                } else {
                    ParseRoute::MemchrFile
                }
            },
            Strategy::Mmap => ParseRoute::MmapFile,
        }
    }
}

impl ParseRoute {
    /// Whether the parser reads an archive that is held in memory.
    pub open spec fn reads_memory(self) -> bool {
        self is BytesMemory || self is MemchrMemory
    }
}

/// How to get an archive, given whether to stream and whether its file is
/// already on disk. Streaming downloads even where a file is there.
pub fn acquisition(stream_enabled: bool, on_disk: bool) -> (r: Acquisition)
    ensures
        r == acquisition_spec(stream_enabled, on_disk),
{
    if stream_enabled {
        Acquisition::ToMemory
    } else if !on_disk {
        Acquisition::ToDisk
    } else {
        Acquisition::Present
    }
}

/// How to get an archive.
pub open spec fn acquisition_spec(stream_enabled: bool, on_disk: bool) -> Acquisition {
    if stream_enabled {
        Acquisition::ToMemory
    } else if on_disk {
        Acquisition::Present
    } else {
        Acquisition::ToDisk
    }
}

/// Whether the file of a parsed archive is to be deleted. In stream mode there
/// is none.
pub fn deletes_file(delete_requested: bool, stream_enabled: bool) -> (r: bool)
    ensures
        r == (delete_requested && !stream_enabled),
{
    delete_requested && !stream_enabled
}

/// An archive always reaches a parser that can read it where it is: it is held
/// in memory exactly where the chosen parser reads memory, for every strategy
/// and whether or not streaming was asked for.
pub proof fn archive_reaches_a_fitting_parser(strategy: Strategy, requested: bool, on_disk: bool)
    ensures
        ({
            let stream = requested && strategy.streams();
            let in_memory = acquisition_spec(stream, on_disk) is ToMemory;
            strategy.route(in_memory).reads_memory() == in_memory
        }),
{
}

} // verus!
