//! The submission endpoint: a base64 candidate in, a structured verdict out.
use crate::challenge::{outcome, Challenge};
use vstd::prelude::*;
use vstd::string::StringSliceAdditionalSpecFns;
use vstd::utf8::encode_utf8;

verus! {

/// A participant's reconstruction of the pad, base64 encoded.
pub struct SecretKeySubmission {
    pub secret_key: String,
}

/// The verdict on a submission: on success the released secret, base64
/// encoded; on failure a message.
pub struct SubmissionResponse {
    pub secret_key_verified: bool,
    pub encrypted_secret: Option<String>,
    pub message: Option<String>,
}

/// `r` reports a failure with the message `msg`.
pub open spec fn is_failure(r: SubmissionResponse, msg: Seq<char>) -> bool {
    &&& !r.secret_key_verified
    &&& r.encrypted_secret is None
    &&& r.message is Some
    &&& r.message->Some_0@ == msg
}

/// What standard, padded base64 decodes `s` to, if it is valid base64.
pub uninterp spec fn base64_decoding(s: Seq<char>) -> Option<Seq<u8>>;

#[verifier::external_type_specification]
#[verifier::external_body]
pub struct ExDecodeError(base64::DecodeError);

/// Relies on base64's `decode` (standard alphabet, padded): `Ok` with the
/// decoded bytes exactly when the text is valid base64, a function of the
/// text alone. It panics when the length plus three overflows `usize`,
/// which the bound rules out.
#[verifier::external_body]
fn decode_base64(s: &str) -> (r: Result<Vec<u8>, base64::DecodeError>)
    requires
        s.spec_bytes().len() <= usize::MAX - 3,
    ensures
        match r {
            Ok(v) => base64_decoding(s@) == Some(v@),
            Err(_) => base64_decoding(s@) is None,
        },
{
    base64::decode(s)
}

impl SubmissionResponse {
    /// A failure response carrying `msg`.
    pub fn failed(msg: &str) -> (r: SubmissionResponse)
        ensures
            is_failure(r, msg@),
    {
        SubmissionResponse { secret_key_verified: false, encrypted_secret: None, message: Some(msg.to_owned()) }
    }
}

/// Answers `body`, received at `now`. Text that is not base64 is refused
/// before the challenge sees it. Otherwise the decoded bytes are submitted;
/// a wrong key and a late one get the same message.
pub fn handle_submission<S>(challenge: &mut Challenge<S>, body: &SecretKeySubmission, now: u64) -> (r: SubmissionResponse)
    requires
        old(challenge).wf(),
        encode_utf8(body.secret_key@).len() <= usize::MAX - 3,
    ensures
        final(challenge).wf(),
        base64_decoding(body.secret_key@) is None ==> {
            &&& *final(challenge) == *old(challenge)
            &&& is_failure(r, "Submission rejected: Invalid base64 encoding"@)
        },
        base64_decoding(body.secret_key@) is Some ==> {
            &&& final(challenge).pad_spec() is None
            &&& final(challenge).players_spec() == old(challenge).players_spec()
            &&& final(challenge).round_spec() == old(challenge).round_spec()
            &&& final(challenge).secret_spec() == old(challenge).secret_spec()
            &&& match outcome(
                old(challenge).secret_spec(),
                old(challenge).pad_spec(),
                base64_decoding(body.secret_key@)->Some_0,
                now,
            ) {
                Ok(e) => {
                    &&& r.secret_key_verified
                    &&& r.encrypted_secret is Some
                    &&& r.encrypted_secret->Some_0@ == e
                    &&& r.message is None
                },
                Err(_) => is_failure(r, "Invalid submission: wrong key or too late"@),
            }
        },
{
    let key_bytes = match decode_base64(body.secret_key.as_str()) {
        Ok(x) => x,
        Err(_) => {
            return SubmissionResponse::failed("Submission rejected: Invalid base64 encoding");
        },
    };
    match challenge.submit_secret_key(key_bytes.as_slice(), now) {
        Ok(encrypted_secret) => SubmissionResponse {
            secret_key_verified: true,
            encrypted_secret: Some(encrypted_secret),
            message: None,
        },
        Err(_) => SubmissionResponse::failed("Invalid submission: wrong key or too late"),
    }
}

} // verus!
