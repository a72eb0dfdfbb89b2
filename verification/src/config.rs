//! What the program's arguments and surroundings amount to.

use crate::text;
use vstd::prelude::*;

verus! {

pub const FALLBACK_WIDTH: u16 = 1280;

pub const FALLBACK_HEIGHT: u16 = 720;

/// The Keychain service that the password is kept under.
pub const KEYCHAIN_SERVICE: &'static str = "macrdp";

/// What is logged unless something else is asked for: known noise is left out.
pub const QUIET_FILTER: &'static str =
    "info,rustls=error,ironrdp_server::encoder=error,ironrdp_server::server=error";

pub const VERBOSE_FILTER: &'static str = "debug";

/// Why the program does not start.
#[derive(Debug, Clone, Copy, PartialEq, Eq, Structural)]
pub enum ConfigError {
    /// No user name was given, and the environment has none.
    NoUsername,
    /// The Keychain has no such entry.
    KeychainNotFound,
    /// The Keychain's answer is not UTF-8.
    KeychainNotUtf8,
    /// The Keychain's entry is empty.
    KeychainEmpty,
    /// The check of the password may be skipped on a loopback address only.
    SkipAuthRefused,
}

/// A codec that is offered to clients.
#[derive(Debug, Clone, Copy, PartialEq, Eq, Structural)]
pub enum CodecProperty {
    NsCodec { dynamic_fidelity: bool, subsampling: bool, color_loss_level: u8 },
    RemoteFx { server_container: u32 },
    ImageRemoteFx { server_container: u32 },
    Qoi,
    QoiZ,
}

/// A codec and its number; the server numbers them itself.
#[derive(Debug, Clone, Copy, PartialEq, Eq, Structural)]
pub struct Codec {
    pub id: u8,
    pub property: CodecProperty,
}

/// The codecs that are offered, in order.
pub open spec fn offered_codecs() -> Seq<Codec> {
    seq![
        Codec {
            id: 0,
            property: CodecProperty::NsCodec {
                dynamic_fidelity: false,
                subsampling: false,
                color_loss_level: 3,
            },
        },
        Codec { id: 0, property: CodecProperty::RemoteFx { server_container: 1 } },
        Codec { id: 0, property: CodecProperty::ImageRemoteFx { server_container: 1 } },
        Codec { id: 0, property: CodecProperty::Qoi },
        Codec { id: 0, property: CodecProperty::QoiZ },
    ]
}

/// The codecs that are offered to clients.
pub fn bitmap_codecs() -> (r: Vec<Codec>)
    ensures
        r@ == offered_codecs(),
{
    let mut r: Vec<Codec> = Vec::new();
    r.push(
        Codec {
            id: 0,
            property: CodecProperty::NsCodec {
                dynamic_fidelity: false,
                subsampling: false,
                color_loss_level: 3,
            },
        },
    );
    r.push(Codec { id: 0, property: CodecProperty::RemoteFx { server_container: 1 } });
    r.push(Codec { id: 0, property: CodecProperty::ImageRemoteFx { server_container: 1 } });
    r.push(Codec { id: 0, property: CodecProperty::Qoi });
    r.push(Codec { id: 0, property: CodecProperty::QoiZ });
    assert(r@ =~= offered_codecs());
    r
}

/// The log filter that applies where the environment names none.
pub open spec fn filter_for(verbose: bool) -> Seq<char> {
    if verbose {
        VERBOSE_FILTER@
    } else {
        QUIET_FILTER@
    }
}

/// The log filter that applies where the environment names none.
pub fn default_filter(verbose: bool) -> (r: &'static str)
    ensures
        r@ == filter_for(verbose),
{
    if verbose {
        VERBOSE_FILTER
    } else {
        QUIET_FILTER
    }
}

/// The account that clients log in to, if there is one.
pub open spec fn account(given: Option<Seq<char>>, user: Option<Seq<char>>) -> Option<Seq<char>> {
    match given {
        Some(g) => Some(g),
        None => user,
    }
}

/// The account that clients log in to: the one that was given, else the one that
/// runs the program.
pub fn resolve_username(given: Option<&str>, user: Option<&str>) -> (r: Result<String, ConfigError>)
    ensures
        match account(text::optional(given), text::optional(user)) {
            Some(a) => r matches Ok(name) && name@ == a,
            None => r matches Err(e) && e == ConfigError::NoUsername,
        },
{
    match given {
        Some(g) => Ok(g.to_owned()),
        None => match user {
            Some(u) => Ok(u.to_owned()),
            None => Err(ConfigError::NoUsername),
        },
    }
}

/// Where the password comes from.
#[derive(Debug, Clone, Copy, PartialEq, Eq, Structural)]
pub enum PasswordSource {
    Keychain,
    Argument,
    Prompt,
}

/// Where the password comes from.
pub open spec fn source_of_password(keychain: bool, given: bool) -> PasswordSource {
    if keychain {
        PasswordSource::Keychain
    } else if given {
        PasswordSource::Argument
    } else {
        PasswordSource::Prompt
    }
}

/// Where the password comes from: the Keychain if asked for, else the command
/// line if it is there, else the terminal.
pub fn password_source(keychain: bool, given: bool) -> (r: PasswordSource)
    ensures
        r == source_of_password(keychain, given),
{
    if keychain {
        PasswordSource::Keychain
    } else if given {
        PasswordSource::Argument
    } else {
        PasswordSource::Prompt
    }
}

/// A text without one line break at its end.
pub open spec fn without_newline(s: Seq<char>) -> Seq<char> {
    if s.len() > 0 && s.last() == '\n' {
        s.drop_last()
    } else {
        s
    }
}

/// The password in the answer of the Keychain's tool.
pub open spec fn keychain_password(success: bool, stdout: Seq<u8>) -> Result<
    Seq<char>,
    ConfigError,
> {
    if !success {
        Err(ConfigError::KeychainNotFound)
    } else if !vstd::utf8::valid_utf8(stdout) {
        Err(ConfigError::KeychainNotUtf8)
    } else {
        let password = without_newline(vstd::utf8::decode_utf8(stdout));
        if password.len() == 0 {
            Err(ConfigError::KeychainEmpty)
        } else {
            Ok(password)
        }
    }
}

/// Reads the password out of the answer of the Keychain's tool, which ends it with
/// a line break.
pub fn read_password_from_keychain(success: bool, stdout: Vec<u8>) -> (r: Result<
    String,
    ConfigError,
>)
    ensures
        match keychain_password(success, stdout@) {
            Ok(p) => r matches Ok(s) && s@ == p,
            Err(e) => r matches Err(f) && f == e,
        },
{
    if !success {
        return Err(ConfigError::KeychainNotFound);
    }
    let s = match text::from_utf8(stdout) {
        Some(s) => s,
        None => return Err(ConfigError::KeychainNotUtf8),
    };
    let chars = text::chars_of(s.as_str());
    let end: usize = if chars.len() > 0 && chars[chars.len() - 1] == '\n' {
        chars.len() - 1
    } else {
        chars.len()
    };
    let password = text::string_of(&chars, 0, end);
    assert(password@ =~= without_newline(s@));
    if end == 0 {
        return Err(ConfigError::KeychainEmpty);
    }
    Ok(password)
}

/// An address to listen on.
#[derive(Debug, Clone, Copy, PartialEq, Eq, Structural)]
pub enum Ip {
    /// The four octets, first to last.
    V4(u8, u8, u8, u8),
    /// The address as one number.
    V6(u128),
}

/// Whether only this machine can reach an address.
pub open spec fn loopback(ip: Ip) -> bool {
    match ip {
        Ip::V4(a, _, _, _) => a == 127,
        Ip::V6(n) => n == 1,
    }
}

/// Whether the password is checked, where the program may start at all.
pub open spec fn password_check(skip_auth: bool, ip: Ip) -> Result<bool, ConfigError> {
    if !skip_auth {
        Ok(true)
    } else if loopback(ip) {
        Ok(false)
    } else {
        Err(ConfigError::SkipAuthRefused)
    }
}

/// Whether the password is checked before the program serves anyone.
pub fn checks_password(skip_auth: bool, ip: Ip) -> (r: Result<bool, ConfigError>)
    ensures
        r == password_check(skip_auth, ip),
{
    if !skip_auth {
        return Ok(true);
    }
    let local = match ip {
        Ip::V4(a, _, _, _) => a == 127,
        Ip::V6(n) => n == 1,
    };
    if local {
        Ok(false)
    } else {
        Err(ConfigError::SkipAuthRefused)
    }
}

/// The size of the desktop, each side by itself.
pub open spec fn size_of_desktop(
    width: Option<u16>,
    height: Option<u16>,
    detected: Option<(u16, u16)>,
) -> (u16, u16) {
    (
        match (width, detected) {
            (Some(w), _) => w,
            (None, Some((w, _))) => w,
            (None, None) => FALLBACK_WIDTH,
        },
        match (height, detected) {
            (Some(h), _) => h,
            (None, Some((_, h))) => h,
            (None, None) => FALLBACK_HEIGHT,
        },
    )
}

/// The size of the desktop: what was given, else what was found, each side by
/// itself, else a size that every client can show.
pub fn desktop_size(width: Option<u16>, height: Option<u16>, detected: Option<(u16, u16)>) -> (r: (
    u16,
    u16,
))
    ensures
        r == size_of_desktop(width, height, detected),
{
    let w: u16 = match width {
        Some(w) => w,
        None => match detected {
            Some((w, _)) => w,
            None => FALLBACK_WIDTH,
        },
    };
    let h: u16 = match height {
        Some(h) => h,
        None => match detected {
            Some((_, h)) => h,
            None => FALLBACK_HEIGHT,
        },
    };
    (w, h)
}

/// A name that is given goes before the name of the user who runs the program, and
/// there is no account only where there is neither.
pub proof fn law_whose_account_it_is(given: Option<Seq<char>>, user: Option<Seq<char>>)
    ensures
        given is Some ==> account(given, user) == given,
        given is None ==> account(given, user) == user,
{
}

/// The Keychain goes before a password on the command line, that before the terminal.
pub proof fn law_where_the_password_comes_from(given: bool)
    ensures
        source_of_password(true, given) == PasswordSource::Keychain,
        source_of_password(false, true) == PasswordSource::Argument,
        source_of_password(false, false) == PasswordSource::Prompt,
{
}

/// One line break, and no more, is taken off the end of a text, and nothing from
/// anywhere else.
pub proof fn law_one_line_break_is_taken_off(s: Seq<char>)
    ensures
        without_newline(s.push('\n')) == s,
        s.len() > 0 && s[s.len() - 1] != '\n' ==> without_newline(s) == s,
        without_newline(Seq::empty()) == Seq::<char>::empty(),
{
    assert(s.push('\n').drop_last() =~= s);
}

/// A password that the Keychain's tool prints on a line is that password. An empty
/// line, no output, a failure and what is not UTF-8 are each told apart.
pub proof fn law_what_the_keychain_says(password: Seq<char>, stdout: Seq<u8>)
    requires
        vstd::utf8::valid_utf8(stdout),
        vstd::utf8::decode_utf8(stdout) == password.push('\n'),
    ensures
        password.len() > 0 ==> keychain_password(true, stdout) == Ok::<Seq<char>, ConfigError>(
            password,
        ),
        password.len() == 0 ==> keychain_password(true, stdout) == Err::<Seq<char>, ConfigError>(
            ConfigError::KeychainEmpty,
        ),
        keychain_password(false, stdout) == Err::<Seq<char>, ConfigError>(
            ConfigError::KeychainNotFound,
        ),
        forall|other: Seq<u8>|
            !vstd::utf8::valid_utf8(other) ==> #[trigger] keychain_password(true, other) == Err::<
                Seq<char>,
                ConfigError,
            >(ConfigError::KeychainNotUtf8),
{
    assert(password.push('\n').drop_last() =~= password);
}

/// The check is left out only where it is asked for and only this machine can
/// connect: over IPv4 on 127.x.y.z, over IPv6 on ::1.
pub proof fn law_when_the_password_goes_unchecked(skip_auth: bool, ip: Ip)
    ensures
        password_check(skip_auth, ip) == Ok::<bool, ConfigError>(false) <==> skip_auth && (
        match ip {
            Ip::V4(a, _, _, _) => a == 127,
            Ip::V6(n) => n == 1,
        }),
        password_check(skip_auth, ip) is Err <==> skip_auth && !loopback(ip),
        password_check(skip_auth, ip) matches Err(e) ==> e == ConfigError::SkipAuthRefused,
        loopback(ip) <==> match ip {
            Ip::V4(a, _, _, _) => a == 127,
            Ip::V6(n) => n == 1,
        },
{
}

/// A side that is given is that; one that is not is the one found; with neither the
/// desktop is 1280 by 720.
pub proof fn law_how_large_the_desktop_is(
    width: Option<u16>,
    height: Option<u16>,
    found: (u16, u16),
    detected: Option<(u16, u16)>,
)
    ensures
        width matches Some(w) ==> size_of_desktop(width, height, detected).0 == w,
        height matches Some(h) ==> size_of_desktop(width, height, detected).1 == h,
        width is None ==> size_of_desktop(width, height, Some(found)).0 == found.0,
        height is None ==> size_of_desktop(width, height, Some(found)).1 == found.1,
        width is None ==> size_of_desktop(width, height, None).0 == 1280,
        height is None ==> size_of_desktop(width, height, None).1 == 720,
{
}

/// Five codecs are offered, each once and under the number that lets the server
/// number it.
pub proof fn law_which_codecs_are_offered(k: int)
    ensures
        offered_codecs().len() == 5,
        0 <= k < 5 ==> offered_codecs()[k].id == 0,
        offered_codecs()[0].property == (CodecProperty::NsCodec {
            dynamic_fidelity: false,
            subsampling: false,
            color_loss_level: 3,
        }),
        offered_codecs()[1].property == (CodecProperty::RemoteFx { server_container: 1 }),
        offered_codecs()[2].property == (CodecProperty::ImageRemoteFx { server_container: 1 }),
        offered_codecs()[3].property == CodecProperty::Qoi,
        offered_codecs()[4].property == CodecProperty::QoiZ,
{
}

/// Everything down to `debug` is logged where that is asked for; else `info`, and only
/// errors of the parts that are known to be noisy.
pub proof fn law_what_is_logged()
    ensures
        filter_for(true) == "debug"@,
        filter_for(false)
            == "info,rustls=error,ironrdp_server::encoder=error,ironrdp_server::server=error"@,
{
}

} // verus!
