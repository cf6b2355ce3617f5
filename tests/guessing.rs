use webserver::guess::{judge, GuessGame, Verdict, SECRET_MAX, SECRET_MIN};

#[test]
fn judge_answers_each_side() {
    assert_eq!(judge(10, 50), Verdict::TooSmall);
    assert_eq!(judge(90, 50), Verdict::TooBig);
    assert_eq!(judge(50, 50), Verdict::Win);
    assert_eq!(judge(0, 1), Verdict::TooSmall);
    assert_eq!(judge(u32::MAX, 100), Verdict::TooBig);
}

#[test]
fn verdict_messages() {
    assert_eq!(Verdict::TooSmall.message(), "small");
    assert_eq!(Verdict::TooBig.message(), "big");
    assert_eq!(Verdict::Win.message(), "win");
}

#[test]
fn game_is_won_only_by_the_secret() {
    let mut g = GuessGame::with_secret(42);
    assert_eq!(g.secret(), 42);
    assert!(!g.is_won());
    assert_eq!(g.play(10), Verdict::TooSmall);
    assert!(!g.is_won());
    assert_eq!(g.play(77), Verdict::TooBig);
    assert!(!g.is_won());
    assert_eq!(g.play(42), Verdict::Win);
    assert!(g.is_won());
    assert_eq!(g.secret(), 42);
}

#[test]
fn drawn_secrets_stay_in_range_and_vary() {
    let mut seen = std::collections::HashSet::new();
    for _ in 0..500 {
        let g = GuessGame::new();
        assert!(!g.is_won());
        assert!(g.secret() >= SECRET_MIN && g.secret() <= SECRET_MAX);
        seen.insert(g.secret());
    }
    assert!(seen.len() > 1);
    assert!(seen.iter().any(|&s| s != SECRET_MIN && s != SECRET_MAX));
}
