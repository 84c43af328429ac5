use traversev::errors::TraverseVErr;
use traversev::Params;

#[test]
fn params_accepts_boundaries() {
    let p = Params::new(2, 1, 1, 1).unwrap();
    assert_eq!(p.m_cost(), 2);
    assert_eq!(p.t_cost(), 1);
    assert_eq!(p.e_cost(), 1);
    assert_eq!(p.n_cost(), 1);
    let p = Params::new(u32::MAX, u32::MAX, u32::MAX, 255).unwrap();
    assert_eq!(p.m_cost(), u32::MAX);
    assert_eq!(p.n_cost(), 255);
}

#[test]
fn params_memory_too_small() {
    assert!(matches!(Params::new(1, 1, 1, 1), Err(TraverseVErr::MemoryTooSmall)));
    assert!(matches!(Params::new(0, 0, 0, 0), Err(TraverseVErr::MemoryTooSmall)));
}

#[test]
fn params_time_too_small() {
    assert!(matches!(Params::new(2, 0, 1, 1), Err(TraverseVErr::TimeTooSmall)));
}

#[test]
fn params_evaluation_too_few() {
    assert!(matches!(Params::new(2, 1, 0, 1), Err(TraverseVErr::EvaluationTooFew)));
}

#[test]
fn params_difficulty_too_low() {
    assert!(matches!(Params::new(2, 1, 1, 0), Err(TraverseVErr::DifficultyTooLow)));
}

#[test]
fn params_difficulty_too_high() {
    assert!(matches!(Params::new(2, 1, 1, 256), Err(TraverseVErr::DifficultyTooHigh)));
    assert!(matches!(Params::new(2, 1, 1, u32::MAX), Err(TraverseVErr::DifficultyTooHigh)));
}

#[test]
fn params_default_values() {
    let p = Params::default();
    assert_eq!(p.m_cost(), 19 * 1024);
    assert_eq!(p.t_cost(), 3);
    assert_eq!(p.e_cost(), 8);
    assert_eq!(p.n_cost(), 20);
    assert_eq!((Params::DEFAULT_M, Params::DEFAULT_T, Params::DEFAULT_E, Params::DEFAULT_N), (19456, 3, 8, 20));
}

#[test]
fn error_messages() {
    assert_eq!(TraverseVErr::MemoryTooSmall.message(), "memory cost is too small");
    assert_eq!(TraverseVErr::TimeTooSmall.message(), "time cost is too small");
    assert_eq!(TraverseVErr::EvaluationTooFew.message(), "evaluation rounds is too few");
    assert_eq!(TraverseVErr::DifficultyTooLow.message(), "difficulty is too low");
    assert_eq!(TraverseVErr::DifficultyTooHigh.message(), "difficulty is too high");
    assert_eq!(TraverseVErr::InvalidNonce.message(), "nonce time before unix epoch");
}
