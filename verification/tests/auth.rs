use macrdp::auth::{
    authenticate, conclude, conversation, AuthError, PamCall, PamSession, PamStep, Verdict,
    PAM_PROMPT_ECHO_OFF,
};

fn run(mut s: PamSession, results: &[i32]) -> (Vec<PamCall>, Verdict) {
    let mut calls = vec![PamCall::Start];
    for rc in results {
        match s.returned(*rc) {
            PamStep::Call(c) => calls.push(c),
            PamStep::Finished(v) => return (calls, v),
        }
    }
    panic!("no verdict");
}

fn begin() -> PamSession {
    match authenticate("me", "secret") {
        Ok(s) => s,
        Err(_) => panic!("refused"),
    }
}

#[test]
fn a_right_password() {
    let s = begin();
    assert_eq!((s.service.as_str(), s.username.as_str(), s.password.as_str()), ("checkpw", "me", "secret"));
    let (calls, verdict) = run(s, &[0, 0, 0, 0, 0]);
    assert_eq!(
        calls,
        vec![
            PamCall::Start,
            PamCall::SetToken,
            PamCall::Authenticate,
            PamCall::AccountManagement,
            PamCall::End(0),
        ]
    );
    assert_eq!(verdict, Verdict::Granted);
    assert!(conclude(verdict, None).is_ok());
}

#[test]
fn every_way_to_fail() {
    let (calls, verdict) = run(begin(), &[4]);
    assert_eq!((calls.len(), verdict), (1, Verdict::NotStarted(4)));
    assert!(matches!(conclude(verdict, None), Err(AuthError::StartFailed(4))));
    let (calls, verdict) = run(begin(), &[0, 5, 0]);
    assert_eq!((calls.last(), verdict), (Some(&PamCall::End(5)), Verdict::NoToken(5)));
    assert!(matches!(conclude(verdict, None), Err(AuthError::SetTokenFailed(5))));
    let (calls, verdict) = run(begin(), &[0, 0, 9, 0, 0]);
    assert_eq!(&calls[3..], &[PamCall::ErrorText(9), PamCall::End(9)]);
    assert_eq!(verdict, Verdict::Refused(9));
    let words = Some("Authentication failure".to_string());
    assert!(
        matches!(conclude(verdict, words), Err(AuthError::Refused(ref m)) if m == "Authentication failure")
    );
    let (calls, verdict) = run(begin(), &[0, 0, 0, 13, 0, 0]);
    assert_eq!(&calls[4..], &[PamCall::ErrorText(13), PamCall::End(13)]);
    assert!(
        matches!(conclude(verdict, None), Err(AuthError::Refused(ref m)) if m == "unknown PAM error")
    );
}

#[test]
fn texts_that_cannot_be_passed_on() {
    assert!(matches!(authenticate("m\0e", "x"), Err(AuthError::UsernameHasNul)));
    assert!(matches!(authenticate("me", "x\0"), Err(AuthError::PasswordHasNul)));
    assert!(matches!(PamSession::begin("a\0", "b\0", "c"), Err(AuthError::ServiceHasNul)));
}

#[test]
fn prompts_are_answered() {
    let answers = conversation(3, &[Some(PAM_PROMPT_ECHO_OFF), Some(4), None], b"pw");
    assert_eq!(answers, Some(vec![Some(b"pw\0".to_vec()), None, None]));
    assert_eq!(conversation(0, &[], b"pw"), None);
    assert_eq!(conversation(-1, &[], b"pw"), None);
}
