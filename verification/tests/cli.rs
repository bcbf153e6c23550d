use asb::cli::{check_args, get_args, Args, ArgsError};

#[test]
fn test_get_args() {
    let args = get_args(Args::default()).unwrap();

    assert_eq!(args.difficulty, 5);
    assert_eq!(args.total_blocks, 5);
}

#[test]
fn test_check_args_invalid_difficulty_arg() {
    assert!(check_args(Args { difficulty: 64, total_blocks: 5 }).is_err());
}

#[test]
fn test_check_args_invalid_total_blocks_arg() {
    assert!(check_args(Args { difficulty: 5, total_blocks: 1 }).is_err());
}

#[test]
fn difficulty_of_64_or_more_is_refused() {
    assert_eq!(
        check_args(Args { difficulty: 64, total_blocks: 5 }),
        Err(ArgsError::DifficultyTooHigh(64))
    );
    assert_eq!(
        check_args(Args { difficulty: usize::MAX, total_blocks: 2 }),
        Err(ArgsError::DifficultyTooHigh(usize::MAX))
    );
}

#[test]
fn fewer_than_two_blocks_are_refused() {
    assert_eq!(
        check_args(Args { difficulty: 5, total_blocks: 1 }),
        Err(ArgsError::TooFewBlocks(1))
    );
    assert_eq!(
        check_args(Args { difficulty: 0, total_blocks: -3 }),
        Err(ArgsError::TooFewBlocks(-3))
    );
}

#[test]
fn difficulty_is_looked_at_first() {
    assert_eq!(
        check_args(Args { difficulty: 70, total_blocks: 0 }),
        Err(ArgsError::DifficultyTooHigh(70))
    );
}

#[test]
fn settings_at_the_limits_are_accepted() {
    let args = Args { difficulty: 63, total_blocks: 2 };
    assert_eq!(check_args(args), Ok(args));
    let args = Args { difficulty: 0, total_blocks: i32::MAX };
    assert_eq!(get_args(args), Ok(args));
}

#[test]
fn get_args_refuses_what_check_args_refuses() {
    assert_eq!(
        get_args(Args { difficulty: 64, total_blocks: 5 }),
        Err(ArgsError::DifficultyTooHigh(64))
    );
    assert_eq!(
        get_args(Args { difficulty: 5, total_blocks: 1 }),
        Err(ArgsError::TooFewBlocks(1))
    );
}
