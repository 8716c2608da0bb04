//! The description of one copy job: the raw arguments as the user gave them,
//! and the validated job that the engines work from.

use crate::error::{Fault, RddError, RddResult};
use crate::size::{decimal_digits, decimal_text, parse_size, size_fault_text, size_outcome};
use vstd::prelude::*;

verus! {

/// The digests that a transfer can be verified with.
#[derive(Clone, Copy, Debug, PartialEq, Eq, Structural)]
pub enum HashAlgorithm {
    Sha256,
    Blake3,
}

/// The arguments of the `copy` command, untouched.
#[derive(Debug)]
pub struct CopyArgs {
    /// Input file or device.
    pub input: String,
    /// Output file or device.
    pub output: String,
    /// Block size, as a size string.
    pub bs: String,
    /// Number of blocks to copy; 0 copies until the input ends.
    pub count: u64,
    /// Blocks to skip at the start of the input.
    pub skip: u64,
    /// Blocks to skip at the start of the output.
    pub seek: u64,
    /// Digest to verify the transfer with.
    pub verify: Option<HashAlgorithm>,
    /// Whether to report progress.
    pub progress: bool,
    /// Number of I/O threads.
    pub threads: u8,
    /// Whether to bypass the operating system's cache.
    pub direct: bool,
}

/// The commands of the program.
#[derive(Debug)]
pub enum Command {
    /// Copy blocks from an input to an output.
    Copy(CopyArgs),
}

/// The command line as a whole.
#[derive(Debug)]
pub struct Cli {
    pub command: Command,
}

/// A validated copy job. The engines take nothing else.
#[derive(Debug)]
pub struct CopyConfig {
    pub input_file: String,
    pub output_file: String,
    pub block_size: usize,
    pub count: u64,
    pub skip: u64,
    pub seek: u64,
    pub show_progress: bool,
    pub verification_algo: Option<HashAlgorithm>,
    pub threads: u8,
    pub use_direct_io: bool,
}

/// Why a set of arguments describes no job.
pub enum ConfigFault {
    /// The block size is no size.
    BlockSize(Seq<char>),
    /// The block size is zero.
    ZeroBlockSize,
    /// No thread to copy with.
    NoThreads,
    /// The input offset leaves the 64-bit range.
    SkipOverflow,
    /// The output offset leaves the 64-bit range.
    SeekOverflow,
}

impl ConfigFault {
    /// The text that reports this fault.
    pub open spec fn text(self) -> Seq<char> {
        match self {
            ConfigFault::BlockSize(text) => text,
            ConfigFault::ZeroBlockSize => "Block size cannot be zero."@,
            ConfigFault::NoThreads => "Thread count must be at least 1."@,
            ConfigFault::SkipOverflow => "Skip offset is too large and would overflow."@,
            ConfigFault::SeekOverflow => "Seek offset is too large and would overflow."@,
        }
    }
}

/// The first fault of `args`, if they have one: the block size is checked
/// first, then the thread count, then the two offsets.
pub open spec fn fault_of(args: CopyArgs) -> Option<ConfigFault> {
    match size_outcome(args.bs@) {
        Err(fault) => Some(ConfigFault::BlockSize(size_fault_text(fault, args.bs@))),
        Ok(block_size) => if block_size == 0 {
            Some(ConfigFault::ZeroBlockSize)
        } else if args.threads == 0 {
            Some(ConfigFault::NoThreads)
        } else if args.skip * block_size > u64::MAX {
            Some(ConfigFault::SkipOverflow)
        } else if args.seek * block_size > u64::MAX {
            Some(ConfigFault::SeekOverflow)
        } else {
            None
        },
    }
}

/// Whether blocks of `block_size` bytes suit a device that takes direct I/O
/// in units of `alignment` bytes only: the size is a multiple of the unit.
pub open spec fn aligned(block_size: usize, alignment: usize) -> bool {
    alignment > 0 && block_size % alignment == 0
}

/// The text of the failure of a job whose blocks do not suit the device.
pub open spec fn misaligned_text(block_size: usize, alignment: usize) -> Seq<char> {
    "Block size of "@ + decimal_digits(block_size as nat)
        + " bytes is not a multiple of the alignment of "@ + decimal_digits(alignment as nat)
        + " bytes that direct I/O requires."@
}

/// Whether blocks of `block_size` bytes suit a device that takes direct I/O
/// in units of `alignment` bytes only.
pub fn is_aligned(block_size: usize, alignment: usize) -> (suits: bool)
    ensures
        suits == aligned(block_size, alignment),
{
    alignment > 0 && block_size % alignment == 0
}

/// The failure of a job whose blocks do not suit the device.
pub fn misaligned(block_size: usize, alignment: usize) -> (e: RddError)
    ensures
        e@ == Fault::Config(misaligned_text(block_size, alignment)),
{
    let mut text = String::from_str("Block size of ");
    text.append(decimal_text(block_size as u64).as_str());
    text.append(" bytes is not a multiple of the alignment of ");
    text.append(decimal_text(alignment as u64).as_str());
    text.append(" bytes that direct I/O requires.");
    RddError::Config(text)
}

impl CopyConfig {
    /// What every job holds: a block size and a thread count above zero,
    /// and offsets that are byte positions of 64 bits.
    pub open spec fn wf(&self) -> bool {
        &&& self.block_size > 0
        &&& self.threads >= 1
        &&& self.skip * self.block_size <= u64::MAX
        &&& self.seek * self.block_size <= u64::MAX
    }

    /// Whether this job is `args` with the block size read as `block_size`.
    pub open spec fn carries(&self, args: CopyArgs, block_size: nat) -> bool {
        &&& self.input_file == args.input
        &&& self.output_file == args.output
        &&& self.block_size == block_size
        &&& self.count == args.count
        &&& self.skip == args.skip
        &&& self.seek == args.seek
        &&& self.show_progress == args.progress
        &&& self.verification_algo == args.verify
        &&& self.threads == args.threads
        &&& self.use_direct_io == args.direct
    }

    /// Validates raw arguments into a job. Nothing is opened or touched:
    /// arguments with a fault are turned down with a configuration error
    /// that names the first one.
    pub fn from_args(args: CopyArgs) -> (r: RddResult<CopyConfig>)
        ensures
            match fault_of(args) {
                None => r is Ok && r->Ok_0.wf() && r->Ok_0.carries(
                    args,
                    size_outcome(args.bs@)->Ok_0,
                ),
                Some(fault) => r is Err && r->Err_0@ == Fault::Config(fault.text()),
            },
    {
        let block_size = match parse_size(args.bs.as_str()) {
            Ok(block_size) => block_size,
            Err(e) => {
                return Err(e);
            },
        };
        if block_size == 0 {
            return Err(RddError::Config(String::from_str("Block size cannot be zero.")));
        }
        if args.threads == 0 {
            return Err(RddError::Config(String::from_str("Thread count must be at least 1.")));
        }
        if args.skip.checked_mul(block_size as u64).is_none() {
            return Err(
                RddError::Config(String::from_str("Skip offset is too large and would overflow.")),
            );
        }
        if args.seek.checked_mul(block_size as u64).is_none() {
            return Err(
                RddError::Config(String::from_str("Seek offset is too large and would overflow.")),
            );
        }
        Ok(
            CopyConfig {
                input_file: args.input,
                output_file: args.output,
                block_size,
                count: args.count,
                skip: args.skip,
                seek: args.seek,
                show_progress: args.progress,
                verification_algo: args.verify,
                threads: args.threads,
                use_direct_io: args.direct,
            },
        )
    }

    /// Holds the block size of a job against the alignment of the device it
    /// is about to use, which is known only once the device is open. A job
    /// that does not ask for direct I/O suits every device.
    pub fn check_alignment(&self, alignment: usize) -> (r: RddResult<()>)
        ensures
            !self.use_direct_io || aligned(self.block_size, alignment) ==> r is Ok,
            self.use_direct_io && !aligned(self.block_size, alignment) ==> r is Err && r->Err_0@
                == Fault::Config(misaligned_text(self.block_size, alignment)),
    {
        if !self.use_direct_io || is_aligned(self.block_size, alignment) {
            Ok(())
        } else {
            Err(misaligned(self.block_size, alignment))
        }
    }

    /// Where in the input the first block is read: `skip` blocks in.
    pub fn skip_bytes(&self) -> (offset: u64)
        requires
            self.wf(),
        ensures
            offset == self.skip * self.block_size,
    {
        self.skip * (self.block_size as u64)
    }

    /// Where in the output the first block is written: `seek` blocks in.
    pub fn seek_bytes(&self) -> (offset: u64)
        requires
            self.wf(),
        ensures
            offset == self.seek * self.block_size,
    {
        self.seek * (self.block_size as u64)
    }
}

} // verus!
