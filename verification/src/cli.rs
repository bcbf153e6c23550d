//! The settings of a run and the rules they must meet.

use vstd::prelude::*;

verus! {

/// The largest difficulty that is accepted. A hash has 64 characters, so a
/// difficulty of 64 or more asks for a digest of zeros only, or for more
/// zeros than a hash has room for.
pub const MAX_DIFFICULTY: usize = 63;

/// The smallest accepted number of blocks: the genesis block and one more.
pub const MIN_TOTAL_BLOCKS: i32 = 2;

/// The difficulty of a run that names none.
pub const DEFAULT_DIFFICULTY: usize = 5;

/// The number of blocks of a run that names none.
pub const DEFAULT_TOTAL_BLOCKS: i32 = 5;

/// The settings of a run.
#[derive(Debug, Clone, Copy, PartialEq, Eq)]
pub struct Args {
    /// The difficulty level.
    pub difficulty: usize,
    /// The total number of blocks in the chain, the genesis block included.
    pub total_blocks: i32,
}

/// Why settings were refused.
#[derive(Debug, Clone, Copy, PartialEq, Eq)]
pub enum ArgsError {
    /// The difficulty, held here, is 64 or more.
    DifficultyTooHigh(usize),
    /// The total number of blocks, held here, is less than 2.
    TooFewBlocks(i32),
}

impl Default for Args {
    fn default() -> (args: Args)
        ensures
            args.difficulty == DEFAULT_DIFFICULTY,
            args.total_blocks == DEFAULT_TOTAL_BLOCKS,
    {
        Args { difficulty: DEFAULT_DIFFICULTY, total_blocks: DEFAULT_TOTAL_BLOCKS }
    }
}

/// What checking `args` gives: the difficulty is looked at first, then the
/// number of blocks.
pub open spec fn checked(args: Args) -> Result<Args, ArgsError> {
    if args.difficulty > MAX_DIFFICULTY {
        Err(ArgsError::DifficultyTooHigh(args.difficulty))
    } else if args.total_blocks < MIN_TOTAL_BLOCKS {
        Err(ArgsError::TooFewBlocks(args.total_blocks))
    } else {
        Ok(args)
    }
}

/// Check argument values. Refuses a difficulty of 64 or more, and then a
/// total of fewer than 2 blocks.
pub fn check_args(args: Args) -> (result: Result<Args, ArgsError>)
    ensures
        result == checked(args),
        result is Ok <==> args.difficulty <= MAX_DIFFICULTY && args.total_blocks
            >= MIN_TOTAL_BLOCKS,
{
    if args.difficulty >= 64 {
        Err(ArgsError::DifficultyTooHigh(args.difficulty))
    } else if args.total_blocks < 2 {
        Err(ArgsError::TooFewBlocks(args.total_blocks))
    } else {
        Ok(args)
    }
}

/// Get the settings of a run from what was read for it: the settings
/// themselves where they are accepted, else why they are not.
pub fn get_args(args: Args) -> (result: Result<Args, ArgsError>)
    ensures
        result == checked(args),
{
    check_args(args)
}

} // verus!
