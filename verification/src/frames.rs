//! The fixed frames of the control channel. Every one opens with the
//! eight-byte control header; the login request alone carries a payload that
//! depends on anything.

use vstd::prelude::*;
use vstd::string::StringSliceAdditionalSpecFns;
use crate::wire::{zero_padded, zeros};
use crate::wire::{push_all, push_zeros};

verus! {

/// Length of the control header, and of every frame read from the device.
pub const HEADER_LEN: usize = 8;

/// Width of the username field and of the password field of a login request.
pub const CREDENTIAL_FIELD_LEN: usize = 64;

/// Length of a login request: the header and the two credential fields.
pub const LOGIN_FRAME_LEN: usize = 136;

/// Length of a stream-start command: the header and eight zero bytes.
pub const START_STREAM_FRAME_LEN: usize = 16;

/// The frame by which the device accepts a login. Frames read from the device
/// are compared with it byte for byte.
pub const LOGIN_ACCEPT: [u8; 8] = [0xAB, 0xCD, 0x00, 0x81, 0x00, 0x00, 0x01, 0x11];

/// The header of a login request.
pub open spec fn login_header() -> Seq<u8> {
    seq![0xABu8, 0xCDu8, 0x00u8, 0x80u8, 0x00u8, 0x00u8, 0x01u8, 0x10u8]
}

/// The heartbeat frame.
pub open spec fn heartbeat_frame() -> Seq<u8> {
    seq![0xABu8, 0xCDu8, 0x00u8, 0x00u8, 0x00u8, 0x00u8, 0x01u8, 0x13u8]
}

/// The header of a stream-start command.
pub open spec fn start_stream_header() -> Seq<u8> {
    seq![0xABu8, 0xCDu8, 0x00u8, 0x08u8, 0x00u8, 0x00u8, 0x01u8, 0xFFu8]
}

/// The stream-start command: its header and eight zero bytes.
pub open spec fn start_stream_frame() -> Seq<u8> {
    start_stream_header() + zeros(8)
}

/// The frame by which the device accepts a login.
pub open spec fn login_accept_frame() -> Seq<u8> {
    seq![0xABu8, 0xCDu8, 0x00u8, 0x81u8, 0x00u8, 0x00u8, 0x01u8, 0x11u8]
}

/// A credential that does not fit its field. Nothing is cut to size: the
/// request is not built.
#[derive(Clone, Copy, Debug, PartialEq, Eq, Structural)]
pub enum CredentialError {
    /// The username takes more than 64 bytes.
    UsernameTooLong { len: usize },
    /// The username fits, and the password takes more than 64 bytes.
    PasswordTooLong { len: usize },
}

/// The login request for credentials that fit: the login header, the
/// username padded with zeros to 64 bytes, the password padded likewise.
pub open spec fn login_frame(username: Seq<u8>, password: Seq<u8>) -> Seq<u8>
    recommends
        username.len() <= CREDENTIAL_FIELD_LEN,
        password.len() <= CREDENTIAL_FIELD_LEN,
{
    login_header() + zero_padded(username, CREDENTIAL_FIELD_LEN as nat) + zero_padded(
        password,
        CREDENTIAL_FIELD_LEN as nat,
    )
}

/// What building a login request gives: the frame when both credentials fit,
/// else the first that does not.
pub open spec fn login_request(username: Seq<u8>, password: Seq<u8>) -> Result<
    Seq<u8>,
    CredentialError,
> {
    if username.len() > CREDENTIAL_FIELD_LEN {
        Err(CredentialError::UsernameTooLong { len: username.len() as usize })
    } else if password.len() > CREDENTIAL_FIELD_LEN {
        Err(CredentialError::PasswordTooLong { len: password.len() as usize })
    } else {
        Ok(login_frame(username, password))
    }
}

/// The bytes of the username that `login_payload` logs in with: "admin".
pub open spec fn default_username() -> Seq<u8> {
    seq![0x61u8, 0x64u8, 0x6Du8, 0x69u8, 0x6Eu8]
}

/// The bytes of the password that `login_payload` logs in with: "12345".
pub open spec fn default_password() -> Seq<u8> {
    seq![0x31u8, 0x32u8, 0x33u8, 0x34u8, 0x35u8]
}

/// A login request is always 136 bytes long; the username starts at byte 8
/// and the password at byte 72, each followed by zeros up to the end of its
/// field.
pub proof fn lemma_login_frame_layout(username: Seq<u8>, password: Seq<u8>)
    requires
        username.len() <= CREDENTIAL_FIELD_LEN,
        password.len() <= CREDENTIAL_FIELD_LEN,
    ensures
        login_frame(username, password).len() == LOGIN_FRAME_LEN,
        login_frame(username, password).subrange(0, 8) == login_header(),
        login_frame(username, password).subrange(8, 8 + username.len() as int) == username,
        login_frame(username, password).subrange(72, 72 + password.len() as int) == password,
        forall|i: int| 8 + username.len() <= i < 72 ==> login_frame(username, password)[i] == 0,
        forall|i: int| 72 + password.len() <= i < 136 ==> login_frame(username, password)[i] == 0,
{
    let f = login_frame(username, password);
    assert(f.subrange(0, 8) =~= login_header());
    assert(f.subrange(8, 8 + username.len() as int) =~= username);
    assert(f.subrange(72, 72 + password.len() as int) =~= password);
}

/// The default credentials, as text and as bytes.
proof fn lemma_default_credentials()
    ensures
        "admin".spec_bytes() == default_username(),
        "12345".spec_bytes() == default_password(),
{
    reveal_strlit("admin");
    reveal_strlit("12345");
    vstd::string::is_ascii_spec_bytes("admin");
    vstd::string::is_ascii_spec_bytes("12345");
    assert("admin".spec_bytes() =~= default_username());
    assert("12345".spec_bytes() =~= default_password());
}

fn push_credential(out: &mut Vec<u8>, credential: &[u8])
    requires
        credential@.len() <= CREDENTIAL_FIELD_LEN,
    ensures
        final(out)@ == old(out)@ + zero_padded(credential@, CREDENTIAL_FIELD_LEN as nat),
{
    push_all(out, credential);
    push_zeros(out, CREDENTIAL_FIELD_LEN - credential.len());
    assert(out@ =~= old(out)@ + zero_padded(credential@, CREDENTIAL_FIELD_LEN as nat));
}

fn push_header(out: &mut Vec<u8>, length: u8, kind: u8)
    ensures
        final(out)@ == old(out)@ + seq![0xABu8, 0xCDu8, 0x00u8, length, 0x00u8, 0x00u8, 0x01u8, kind],
{
    out.push(0xAB);
    out.push(0xCD);
    out.push(0x00);
    out.push(length);
    out.push(0x00);
    out.push(0x00);
    out.push(0x01);
    out.push(kind);
    assert(out@ =~= old(out)@ + seq![
        0xABu8,
        0xCDu8,
        0x00u8,
        length,
        0x00u8,
        0x00u8,
        0x01u8,
        kind,
    ]);
}

/// Builds the login request for the given credentials, taken as their UTF-8
/// bytes. A credential longer than its 64-byte field is refused.
pub fn encode_login(username: &str, password: &str) -> (r: Result<Vec<u8>, CredentialError>)
    ensures
        match r {
            Ok(frame) => login_request(username.spec_bytes(), password.spec_bytes()) == Ok::<
                Seq<u8>,
                CredentialError,
            >(frame@),
            Err(e) => login_request(username.spec_bytes(), password.spec_bytes()) == Err::<
                Seq<u8>,
                CredentialError,
            >(e),
        },
{
    let user = username.as_bytes();
    let pass = password.as_bytes();
    if user.len() > CREDENTIAL_FIELD_LEN {
        return Err(CredentialError::UsernameTooLong { len: user.len() });
    }
    if pass.len() > CREDENTIAL_FIELD_LEN {
        return Err(CredentialError::PasswordTooLong { len: pass.len() });
    }
    let mut frame: Vec<u8> = Vec::new();
    push_header(&mut frame, 0x80, 0x10);
    assert(frame@ =~= login_header());
    push_credential(&mut frame, user);
    push_credential(&mut frame, pass);
    Ok(frame)
}

/// The login request for the credentials the device ships with, "admin" and
/// "12345".
pub fn login_payload() -> (frame: Vec<u8>)
    ensures
        frame@ == login_frame(default_username(), default_password()),
        frame@.len() == LOGIN_FRAME_LEN,
{
    proof {
        lemma_default_credentials();
        lemma_login_frame_layout(default_username(), default_password());
    }
    match encode_login("admin", "12345") {
        Ok(frame) => frame,
        Err(_) => vstd::pervasive::unreached(),
    }
}

/// The heartbeat frame, sent every few seconds to keep the session alive.
pub fn encode_heartbeat_ack() -> (frame: Vec<u8>)
    ensures
        frame@ == heartbeat_frame(),
{
    let mut frame: Vec<u8> = Vec::new();
    push_header(&mut frame, 0x00, 0x13);
    assert(frame@ =~= heartbeat_frame());
    frame
}

/// The command that asks the device to start streaming.
pub fn encode_start_stream() -> (frame: Vec<u8>)
    ensures
        frame@ == start_stream_frame(),
        frame@.len() == START_STREAM_FRAME_LEN,
{
    let mut frame: Vec<u8> = Vec::new();
    push_header(&mut frame, 0x08, 0xFF);
    assert(frame@ =~= start_stream_header());
    push_zeros(&mut frame, 8);
    frame
}

/// True exactly of the frame by which the device accepts a login.
pub fn is_login_accept(frame: &[u8]) -> (r: bool)
    ensures
        r == (frame@ == login_accept_frame()),
{
    if frame.len() != HEADER_LEN {
        return false;
    }
    let mut i: usize = 0;
    while i < HEADER_LEN
        invariant
            i <= HEADER_LEN,
            frame@.len() == HEADER_LEN,
            LOGIN_ACCEPT@ == login_accept_frame(),
            forall|j: int| 0 <= j < i ==> frame@[j] == login_accept_frame()[j],
        decreases HEADER_LEN - i,
    {
        if frame[i] != LOGIN_ACCEPT[i] {
            return false;
        }
        i = i + 1;
    }
    assert(frame@ =~= login_accept_frame());
    true
}

} // verus!
