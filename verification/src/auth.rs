//! Checking the user's password against the Mac account, step by step.
//!
//! The system's authentication library is driven by the caller: [`PamSession`]
//! says which call comes next, is told its result, and ends with the verdict.

use crate::text;
use vstd::prelude::*;

verus! {

/// A call of the library went through.
pub const PAM_SUCCESS: i32 = 0;

/// A conversation failed.
pub const PAM_CONV_ERR: i32 = 1;

/// A message that asks for the password.
pub const PAM_PROMPT_ECHO_OFF: i32 = 1;

/// The item that holds the password.
pub const PAM_AUTHTOK: i32 = 6;

/// Why the user was not let in.
pub enum AuthError {
    ServiceHasNul,
    UsernameHasNul,
    PasswordHasNul,
    StartFailed(i32),
    SetTokenFailed(i32),
    /// The library's own words.
    Refused(String),
}

/// A call to make.
#[derive(Debug, Clone, Copy, PartialEq, Eq, Structural)]
pub enum PamCall {
    /// Open a session for the service and user.
    Start,
    /// Hand the password over before it is asked for.
    SetToken,
    Authenticate,
    /// Check that the account may be used.
    AccountManagement,
    /// The words for this result.
    ErrorText(i32),
    /// Close the session with this status.
    End(i32),
}

/// Where a session stands.
#[derive(Debug, Clone, Copy, PartialEq, Eq, Structural)]
pub enum PamPhase {
    Starting,
    SettingToken,
    Authenticating,
    CheckingAccount,
    Explaining(i32),
    Ending(Verdict),
    Over,
}

/// How a session ends.
#[derive(Debug, Clone, Copy, PartialEq, Eq, Structural)]
pub enum Verdict {
    Granted,
    NotStarted(i32),
    NoToken(i32),
    Refused(i32),
}

/// What to do next.
#[derive(Debug, Clone, Copy, PartialEq, Eq, Structural)]
pub enum PamStep {
    Call(PamCall),
    Finished(Verdict),
}

/// A session with the authentication library.
pub struct PamSession {
    pub service: String,
    pub username: String,
    pub password: String,
    pub phase: PamPhase,
}

/// Whether a text holds a zero character, which a C string cannot.
pub open spec fn has_nul(s: Seq<char>) -> bool {
    s.contains('\0')
}

fn contains_nul(s: &str) -> (r: bool)
    ensures
        r == has_nul(s@),
{
    let chars = text::chars_of(s);
    let mut i: usize = 0;
    while i < chars.len()
        invariant
            i <= chars@.len(),
            chars@ == s@,
            forall|j: int| 0 <= j < i ==> chars@[j] != '\0',
        decreases chars@.len() - i,
    {
        if chars[i] == '\0' {
            assert(s@[i as int] == '\0');
            return true;
        }
        i = i + 1;
    }
    false
}

/// The service that checks a password without opening a login session.
pub open spec fn password_service() -> Seq<char> {
    "checkpw"@
}

/// Begins checking a user's password with the service that needs no privileges.
pub fn authenticate(username: &str, password: &str) -> (r: Result<PamSession, AuthError>)
    ensures
        begun(r, password_service(), username@, password@),
{
    PamSession::begin("checkpw", username, password)
}

/// Whether a session was begun, or turned down for the first text that cannot be
/// passed on.
pub open spec fn begun(
    r: Result<PamSession, AuthError>,
    service: Seq<char>,
    username: Seq<char>,
    password: Seq<char>,
) -> bool {
    match r {
        Ok(s) => {
            &&& !has_nul(service) && !has_nul(username) && !has_nul(password)
            &&& s.service@ == service && s.username@ == username && s.password@ == password
            &&& s.phase == PamPhase::Starting
        },
        Err(AuthError::ServiceHasNul) => has_nul(service),
        Err(AuthError::UsernameHasNul) => !has_nul(service) && has_nul(username),
        Err(AuthError::PasswordHasNul) => !has_nul(service) && !has_nul(username) && has_nul(
            password,
        ),
        Err(_) => false,
    }
}

/// What follows the result of a call.
pub open spec fn after_call(phase: PamPhase, rc: i32) -> (PamPhase, PamStep) {
    match phase {
        PamPhase::Starting => if rc != PAM_SUCCESS {
            (PamPhase::Over, PamStep::Finished(Verdict::NotStarted(rc)))
        } else {
            (PamPhase::SettingToken, PamStep::Call(PamCall::SetToken))
        },
        PamPhase::SettingToken => if rc != PAM_SUCCESS {
            (PamPhase::Ending(Verdict::NoToken(rc)), PamStep::Call(PamCall::End(rc)))
        } else {
            (PamPhase::Authenticating, PamStep::Call(PamCall::Authenticate))
        },
        PamPhase::Authenticating => if rc != PAM_SUCCESS {
            (PamPhase::Explaining(rc), PamStep::Call(PamCall::ErrorText(rc)))
        } else {
            (PamPhase::CheckingAccount, PamStep::Call(PamCall::AccountManagement))
        },
        PamPhase::CheckingAccount => if rc != PAM_SUCCESS {
            (PamPhase::Explaining(rc), PamStep::Call(PamCall::ErrorText(rc)))
        } else {
            (PamPhase::Ending(Verdict::Granted), PamStep::Call(PamCall::End(rc)))
        },
        PamPhase::Explaining(why) => (
            PamPhase::Ending(Verdict::Refused(why)),
            PamStep::Call(PamCall::End(why)),
        ),
        PamPhase::Ending(v) => (PamPhase::Over, PamStep::Finished(v)),
        PamPhase::Over => (PamPhase::Over, PamStep::Finished(Verdict::Refused(rc))),
    }
}

impl PamSession {
    /// Begins a session. None of the texts may hold a zero character.
    pub fn begin(service: &str, username: &str, password: &str) -> (r: Result<Self, AuthError>)
        ensures
            begun(r, service@, username@, password@),
    {
        if contains_nul(service) {
            return Err(AuthError::ServiceHasNul);
        }
        if contains_nul(username) {
            return Err(AuthError::UsernameHasNul);
        }
        if contains_nul(password) {
            return Err(AuthError::PasswordHasNul);
        }
        Ok(
            PamSession {
                service: service.to_owned(),
                username: username.to_owned(),
                password: password.to_owned(),
                phase: PamPhase::Starting,
            },
        )
    }

    /// The call that was made last returned `rc`: what to do next. Asking for
    /// words and closing return nothing that matters.
    pub fn returned(&mut self, rc: i32) -> (r: PamStep)
        ensures
            (final(self).phase, r) == after_call(old(self).phase, rc),
            final(self).service == old(self).service,
            final(self).username == old(self).username,
            final(self).password == old(self).password,
    {
        let (phase, step) = match self.phase {
            PamPhase::Starting => if rc != PAM_SUCCESS {
                (PamPhase::Over, PamStep::Finished(Verdict::NotStarted(rc)))
            } else {
                (PamPhase::SettingToken, PamStep::Call(PamCall::SetToken))
            },
            PamPhase::SettingToken => if rc != PAM_SUCCESS {
                (PamPhase::Ending(Verdict::NoToken(rc)), PamStep::Call(PamCall::End(rc)))
            } else {
                (PamPhase::Authenticating, PamStep::Call(PamCall::Authenticate))
            },
            PamPhase::Authenticating => if rc != PAM_SUCCESS {
                (PamPhase::Explaining(rc), PamStep::Call(PamCall::ErrorText(rc)))
            } else {
                (PamPhase::CheckingAccount, PamStep::Call(PamCall::AccountManagement))
            },
            PamPhase::CheckingAccount => if rc != PAM_SUCCESS {
                (PamPhase::Explaining(rc), PamStep::Call(PamCall::ErrorText(rc)))
            } else {
                (PamPhase::Ending(Verdict::Granted), PamStep::Call(PamCall::End(rc)))
            },
            PamPhase::Explaining(why) => (
                PamPhase::Ending(Verdict::Refused(why)),
                PamStep::Call(PamCall::End(why)),
            ),
            PamPhase::Ending(v) => (PamPhase::Over, PamStep::Finished(v)),
            PamPhase::Over => (PamPhase::Over, PamStep::Finished(Verdict::Refused(rc))),
        };
        self.phase = phase;
        step
    }
}

/// Whether a result is what a verdict comes to.
pub open spec fn concluded(
    r: Result<(), AuthError>,
    verdict: Verdict,
    words: Option<String>,
) -> bool {
    match verdict {
        Verdict::Granted => r is Ok,
        Verdict::NotStarted(rc) => r matches Err(AuthError::StartFailed(c)) && c == rc,
        Verdict::NoToken(rc) => r matches Err(AuthError::SetTokenFailed(c)) && c == rc,
        Verdict::Refused(_) => r matches Err(AuthError::Refused(m)) && m@ == (match words {
            Some(w) => w@,
            None => "unknown PAM error"@,
        }),
    }
}

/// The verdict as a result. `words` are the library's, where it had any.
pub fn conclude(verdict: Verdict, words: Option<String>) -> (r: Result<(), AuthError>)
    ensures
        concluded(r, verdict, words),
{
    match verdict {
        Verdict::Granted => Ok(()),
        Verdict::NotStarted(rc) => Err(AuthError::StartFailed(rc)),
        Verdict::NoToken(rc) => Err(AuthError::SetTokenFailed(rc)),
        Verdict::Refused(_) => match words {
            Some(w) => Err(AuthError::Refused(w)),
            None => Err(AuthError::Refused("unknown PAM error".to_owned())),
        },
    }
}

/// Whether a result is the answer to messages of these styles.
pub open spec fn converses(
    r: Option<Vec<Option<Vec<u8>>>>,
    num_msg: i32,
    styles: Seq<Option<i32>>,
    password: Seq<u8>,
) -> bool {
    match r {
        Some(answers) => {
            &&& num_msg > 0
            &&& answers@.len() == styles.len()
            &&& forall|i: int|
                0 <= i < styles.len() ==> (#[trigger] answers@[i] matches Some(a) ==> styles[i]
                    == Some(PAM_PROMPT_ECHO_OFF) && a@ == password.push(0))
            &&& forall|i: int|
                0 <= i < styles.len() && styles[i] == Some(PAM_PROMPT_ECHO_OFF)
                    ==> #[trigger] answers@[i] is Some
        },
        None => num_msg <= 0,
    }
}

/// The library asks for something: one answer per message, the password with its
/// terminator where that is asked for. `None` is a conversation that fails; a
/// message without a style is one that is missing.
pub fn conversation(num_msg: i32, styles: &[Option<i32>], password: &[u8]) -> (r: Option<
    Vec<Option<Vec<u8>>>,
>)
    ensures
        converses(r, num_msg, styles@, password@),
{
    if num_msg <= 0 {
        return None;
    }
    let mut answers: Vec<Option<Vec<u8>>> = Vec::new();
    let mut i: usize = 0;
    while i < styles.len()
        invariant
            i <= styles@.len(),
            answers@.len() == i,
            forall|k: int|
                0 <= k < i ==> (#[trigger] answers@[k] matches Some(a) ==> styles@[k] == Some(
                    PAM_PROMPT_ECHO_OFF,
                ) && a@ == password@.push(0)),
            forall|k: int|
                0 <= k < i && styles@[k] == Some(PAM_PROMPT_ECHO_OFF)
                    ==> #[trigger] answers@[k] is Some,
        decreases styles@.len() - i,
    {
        let asked = match styles[i] {
            Some(style) => style == PAM_PROMPT_ECHO_OFF,
            None => false,
        };
        if asked {
            let mut a = vstd::slice::slice_to_vec(password);
            a.push(0);
            answers.push(Some(a));
        } else {
            answers.push(None);
        }
        i = i + 1;
    }
    Some(answers)
}

/// The calls that a session makes for given results, from a phase on, and the
/// verdict that it reaches, if it reaches one.
pub open spec fn trace(phase: PamPhase, results: Seq<i32>) -> (Seq<PamCall>, Option<Verdict>)
    decreases results.len(),
{
    if results.len() == 0 {
        (Seq::empty(), None)
    } else {
        let (next, step) = after_call(phase, results[0]);
        match step {
            PamStep::Finished(v) => (Seq::empty(), Some(v)),
            PamStep::Call(c) => {
                let (calls, v) = trace(next, results.subrange(1, results.len() as int));
                (seq![c] + calls, v)
            },
        }
    }
}

/// How many times a session is closed in a run.
pub open spec fn closings(calls: Seq<PamCall>) -> int
    decreases calls.len(),
{
    if calls.len() == 0 {
        0
    } else {
        closings(calls.drop_first()) + (if calls[0] is End {
            1int
        } else {
            0int
        })
    }
}

/// Whether a session was opened in this phase and is not closed yet.
pub open spec fn is_open(phase: PamPhase) -> bool {
    match phase {
        PamPhase::SettingToken => true,
        PamPhase::Authenticating => true,
        PamPhase::CheckingAccount => true,
        PamPhase::Explaining(_) => true,
        _ => false,
    }
}

proof fn lemma_open_sessions_close_once(phase: PamPhase, results: Seq<i32>)
    requires
        trace(phase, results).1 is Some,
        phase !is Starting,
    ensures
        closings(trace(phase, results).0) == (if is_open(phase) {
            1int
        } else {
            0int
        }),
    decreases results.len(),
{
    let (next, step) = after_call(phase, results[0]);
    let rest = results.subrange(1, results.len() as int);
    match step {
        PamStep::Finished(v) => {},
        PamStep::Call(c) => {
            lemma_open_sessions_close_once(next, rest);
            let calls = seq![c] + trace(next, rest).0;
            assert(calls.drop_first() =~= trace(next, rest).0);
        },
    }
}

/// A session that was opened is closed exactly once on every path to a verdict,
/// and one that was not opened is never closed.
pub proof fn law_every_session_is_closed_once(results: Seq<i32>)
    requires
        trace(PamPhase::Starting, results).1 is Some,
    ensures
        closings(trace(PamPhase::Starting, results).0) == (if results[0] == PAM_SUCCESS {
            1int
        } else {
            0int
        }),
{
    let (next, step) = after_call(PamPhase::Starting, results[0]);
    let rest = results.subrange(1, results.len() as int);
    match step {
        PamStep::Finished(v) => {},
        PamStep::Call(c) => {
            lemma_open_sessions_close_once(next, rest);
            let calls = seq![c] + trace(next, rest).0;
            assert(calls.drop_first() =~= trace(next, rest).0);
        },
    }
}

/// The user is let in only where every call went through: the session opened,
/// the password was taken, it was right, and the account may be used.
pub proof fn law_granted_only_if_all_succeed(results: Seq<i32>)
    requires
        trace(PamPhase::Starting, results).1 == Some(Verdict::Granted),
    ensures
        results.len() >= 5,
        results[0] == PAM_SUCCESS,
        results[1] == PAM_SUCCESS,
        results[2] == PAM_SUCCESS,
        results[3] == PAM_SUCCESS,
{
    reveal_with_fuel(trace, 7);
    let r1 = results.subrange(1, results.len() as int);
    if results.len() > 1 {
        assert(r1[0] == results[1]);
        let r2 = r1.subrange(1, r1.len() as int);
        if results.len() > 2 {
            assert(r2[0] == results[2]);
            let r3 = r2.subrange(1, r2.len() as int);
            if results.len() > 3 {
                assert(r3[0] == results[3]);
            }
        }
    }
}

/// A session is let through by success, the result 0, alone: each other result of
/// opening it, handing the password over, checking it or checking the account ends
/// in the refusal that names that result.
pub proof fn law_what_a_result_leads_to(phase: PamPhase, rc: i32)
    ensures
        after_call(PamPhase::Starting, 0).1 == PamStep::Call(PamCall::SetToken),
        after_call(PamPhase::SettingToken, 0).1 == PamStep::Call(PamCall::Authenticate),
        after_call(PamPhase::Authenticating, 0).1 == PamStep::Call(PamCall::AccountManagement),
        after_call(PamPhase::CheckingAccount, 0) == (
            PamPhase::Ending(Verdict::Granted),
            PamStep::Call(PamCall::End(0)),
        ),
        rc != 0 ==> {
            &&& after_call(PamPhase::Starting, rc).1 == PamStep::Finished(Verdict::NotStarted(rc))
            &&& after_call(PamPhase::SettingToken, rc) == (
                PamPhase::Ending(Verdict::NoToken(rc)),
                PamStep::Call(PamCall::End(rc)),
            )
            &&& after_call(PamPhase::Authenticating, rc) == (
                PamPhase::Explaining(rc),
                PamStep::Call(PamCall::ErrorText(rc)),
            )
            &&& after_call(PamPhase::CheckingAccount, rc) == (
                PamPhase::Explaining(rc),
                PamStep::Call(PamCall::ErrorText(rc)),
            )
        },
        forall|why: i32| #[trigger]
            after_call(PamPhase::Explaining(why), rc) == (
                PamPhase::Ending(Verdict::Refused(why)),
                PamStep::Call(PamCall::End(why)),
            ),
        forall|v: Verdict| #[trigger]
            after_call(PamPhase::Ending(v), rc) == (PamPhase::Over, PamStep::Finished(v)),
{
}

/// A session is begun exactly where none of the three texts holds a zero character,
/// with the texts as they are; else the first that holds one is named.
pub proof fn law_when_a_session_is_begun(
    r: Result<PamSession, AuthError>,
    service: Seq<char>,
    username: Seq<char>,
    password: Seq<char>,
)
    requires
        begun(r, service, username, password),
    ensures
        r is Ok <==> forall|i: int|
            #![trigger (service + username + password)[i]]
            0 <= i < service.len() + username.len() + password.len() ==> (service + username
                + password)[i] != '\0',
        r matches Ok(s) ==> s.service@ == service && s.username@ == username && s.password@
            == password && s.phase is Starting,
        r matches Err(e) ==> match e {
            AuthError::ServiceHasNul => service.contains('\0'),
            AuthError::UsernameHasNul => username.contains('\0') && !service.contains('\0'),
            AuthError::PasswordHasNul => password.contains('\0') && !service.contains('\0')
                && !username.contains('\0'),
            _ => false,
        },
{
    let all = service + username + password;
    if r is Ok {
        assert forall|i: int| #![trigger all[i]] 0 <= i < all.len() implies all[i] != '\0' by {
            if i < service.len() {
                assert(service[i] == all[i]);
                assert(!service.contains('\0'));
            } else if i < service.len() + username.len() {
                assert(username[i - service.len()] == all[i]);
            } else {
                assert(password[i - service.len() - username.len()] == all[i]);
            }
        }
    } else {
        if service.contains('\0') {
            let k = choose|k: int| 0 <= k < service.len() && service[k] == '\0';
            assert(all[k] == '\0');
        } else if username.contains('\0') {
            let k = choose|k: int| 0 <= k < username.len() && username[k] == '\0';
            assert(all[service.len() + k] == '\0');
        } else {
            let k = choose|k: int| 0 <= k < password.len() && password[k] == '\0';
            assert(all[service.len() + username.len() + k] == '\0');
        }
    }
}

/// Only a session that is granted lets the user in. Any other tells the result that it
/// failed with, or the library's words, where it has some.
pub proof fn law_what_a_verdict_comes_to(
    r: Result<(), AuthError>,
    verdict: Verdict,
    words: Option<String>,
)
    requires
        concluded(r, verdict, words),
    ensures
        r is Ok <==> verdict == Verdict::Granted,
        verdict matches Verdict::NotStarted(rc) ==> (r matches Err(AuthError::StartFailed(c)) && c
            == rc),
        verdict matches Verdict::NoToken(rc) ==> (r matches Err(AuthError::SetTokenFailed(c)) && c
            == rc),
        verdict is Refused ==> (words matches Some(w) ==> (r matches Err(AuthError::Refused(m))
            && m@ == w@)),
        verdict is Refused && words is None ==> (r matches Err(AuthError::Refused(m)) && m@
            == "unknown PAM error"@),
{
}

/// The password, with a zero byte behind it, is given to the prompts that hide what is
/// typed, the style 1, and to nothing else. A conversation fails only where there is
/// no message.
pub proof fn law_who_gets_the_password(
    r: Option<Vec<Option<Vec<u8>>>>,
    num_msg: i32,
    styles: Seq<Option<i32>>,
    password: Seq<u8>,
    i: int,
)
    requires
        converses(r, num_msg, styles, password),
    ensures
        r is None <==> num_msg <= 0,
        r matches Some(answers) ==> answers@.len() == styles.len() && (0 <= i < styles.len() ==> {
            &&& answers@[i] is Some <==> styles[i] == Some(1i32)
            &&& answers@[i] matches Some(a) ==> a@ == password + seq![0u8]
        }),
{
    assert(password.push(0) =~= password + seq![0u8]);
    if let Some(answers) = r {
        if 0 <= i < styles.len() {
            let one = answers@[i];
        }
    }
}

} // verus!
