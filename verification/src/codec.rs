//! Profiles on the wire: the pprof protocol-buffer message, read and written
//! by the `pprof` crate.

use crate::profile::{Function, Line, Location, Profile, ProfileView, Sample};
use pprof::protos;
use pprof::protos::Message;
use vstd::prelude::*;

verus! {

/// The bytes are no pprof message.
#[derive(Clone, Copy, Debug, PartialEq, Eq)]
pub struct InvalidProfile;

/// What the pprof message parser makes of a sequence of bytes: the profile
/// it reads from them, or nothing where it rejects them.
pub uninterp spec fn decoded(data: Seq<u8>) -> Option<ProfileView>;

/// The bytes that the pprof message writer gives for a profile.
pub uninterp spec fn encoded(profile: ProfileView) -> Seq<u8>;

/// Calls `pprof::protos::Profile::decode` on the bytes and copies, field by
/// field, what the library reads of the message. The result is the parser's
/// own: a profile where it accepts the bytes, nothing where it rejects them.
#[verifier::external_body]
fn parse_message(data: &[u8]) -> (profile: Option<Profile>)
    ensures
        match profile {
            Some(p) => decoded(data@) == Some(p@),
            None => decoded(data@) is None,
        },
{
    let m = protos::Profile::decode(data).ok()?;
    Some(Profile {
        string_table: m.string_table,
        function: m.function.iter().map(|f| Function { id: f.id, name: f.name }).collect(),
        location: m.location.iter().map(|l| Location {
            id: l.id,
            line: l.line.iter().map(|n| Line { function_id: n.function_id, line: n.line }).collect(),
        }).collect(),
        sample: m.sample.into_iter().map(|s| Sample { location_id: s.location_id, value: s.value }).collect(),
    })
}

/// Copies the profile, field by field, into a pprof message whose other
/// fields are empty, and calls `encode_to_vec` on it. The result is the
/// writer's own.
#[verifier::external_body]
fn write_message(profile: Profile) -> (bytes: Vec<u8>)
    ensures
        bytes@ == encoded(profile@),
{
    protos::Profile {
        string_table: profile.string_table,
        function: profile.function.iter().map(|f| protos::Function { id: f.id, name: f.name, ..Default::default() }).collect(),
        location: profile.location.iter().map(|l| protos::Location {
            id: l.id,
            line: l.line.iter().map(|n| protos::Line { function_id: n.function_id, line: n.line }).collect(),
            ..Default::default()
        }).collect(),
        sample: profile.sample.into_iter().map(|s| protos::Sample { location_id: s.location_id, value: s.value, ..Default::default() }).collect(),
        ..Default::default()
    }.encode_to_vec()
}

/// Reads a profile from pprof bytes.
pub fn decode_profile(data: &[u8]) -> (result: Result<Profile, InvalidProfile>)
    ensures
        match result {
            Ok(p) => decoded(data@) == Some(p@),
            Err(_) => decoded(data@) is None,
        },
{
    match parse_message(data) {
        Some(profile) => Ok(profile),
        None => Err(InvalidProfile),
    }
}

/// Writes a profile as pprof bytes.
pub fn encode_profile(profile: Profile) -> (bytes: Vec<u8>)
    ensures
        bytes@ == encoded(profile@),
{
    write_message(profile)
}

} // verus!
