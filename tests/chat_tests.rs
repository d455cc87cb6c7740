use grocery::chat::{recover, repl_step, InputEvent, Recovery, ReplStep, SendOutcome, SESSION_DEATH_NOTICE};

#[test]
fn test_session_death_notice_mentions_resend() {
    assert!(
        SESSION_DEATH_NOTICE.to_lowercase().contains("resend")
            || SESSION_DEATH_NOTICE.to_lowercase().contains("re-send")
            || SESSION_DEATH_NOTICE.to_lowercase().contains("repeat")
            || SESSION_DEATH_NOTICE.to_lowercase().contains("again"),
        "Session death notice should tell user to resend their message, got: {SESSION_DEATH_NOTICE}"
    );
}

#[test]
fn repl_steps_for_lines() {
    assert_eq!(repl_step(&InputEvent::Line("   ".to_string())), ReplStep::Ignore);
    assert_eq!(repl_step(&InputEvent::Line(" QUIT ".to_string())), ReplStep::Quit);
    assert_eq!(repl_step(&InputEvent::Line("Exit".to_string())), ReplStep::Quit);
    assert_eq!(
        repl_step(&InputEvent::Line("  what's for dinner?\n".to_string())),
        ReplStep::Send("what's for dinner?".to_string())
    );
    assert_eq!(repl_step(&InputEvent::Line("quitting".to_string())), ReplStep::Send("quitting".to_string()));
}

#[test]
fn repl_steps_for_end_and_errors() {
    assert_eq!(repl_step(&InputEvent::Exit), ReplStep::Quit);
    assert_eq!(repl_step(&InputEvent::Error { recoverable: true }), ReplStep::Retry);
    assert_eq!(repl_step(&InputEvent::Error { recoverable: false }), ReplStep::Fail);
}

#[test]
fn recovery_after_session_death() {
    assert_eq!(recover(SendOutcome::Delivered, false), Recovery::Continue);
    assert_eq!(recover(SendOutcome::SessionDied, false), Recovery::RespawnAndResend);
    assert_eq!(recover(SendOutcome::SessionDied, true), Recovery::Respawn);
    assert_eq!(recover(SendOutcome::Failed, true), Recovery::Abort);
}
