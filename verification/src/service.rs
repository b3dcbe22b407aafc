//! The collector: profiles come in as pprof bytes, are turned into flame
//! graphs and kept under fresh identifiers, and are handed out as JSON.

use crate::callgraph::{fits, resolve};
use crate::codec::{decode_profile, decoded};
use crate::flamegraph::{flame_graph, FlameGraphData};
use crate::json::data_json;
use crate::string_map::StringMap;
use vstd::prelude::*;
use vstd::string::StringExecFns;

verus! {

/// Seconds that decoding and building one profile may take.
pub const PROCESS_DEADLINE_SECS: u64 = 30;

/// Seconds that requests in flight are given once shutdown has begun.
pub const SHUTDOWN_GRACE_SECS: u64 = 5;

/// Seconds after the shutdown signal at which the process is ended by force.
pub const FORCE_EXIT_SECS: u64 = 6;

/// Seconds for which a browser may keep the answer to a preflight request.
pub const CORS_MAX_AGE_SECS: usize = 3600;

/// Why a profile was not taken in.
#[derive(Clone, Debug, PartialEq, Eq)]
pub enum IngestError {
    /// The bytes are no pprof message.
    InvalidProfile,
    /// Decoding and building took longer than the deadline.
    DeadlineExceeded,
    /// The worker did not get through the profile.
    BuilderFailure,
    /// A file could not be written.
    StorageIo { message: String },
}

/// The status of an answer to an ingestion call.
#[derive(Clone, Copy, Debug, PartialEq, Eq)]
pub enum StatusCode {
    InvalidArgument,
    DeadlineExceeded,
    Internal,
}

/// How the work on one profile ended.
pub enum WorkOutcome {
    /// The worker ran to its end.
    Finished(Result<FlameGraphData, IngestError>),
    /// The worker broke off.
    WorkerFailed,
    /// The deadline passed first.
    TimedOut,
}

/// An answer to an HTTP request: the status and the JSON body.
#[derive(Debug, PartialEq, Eq)]
pub struct HttpReply {
    pub status: u16,
    pub body: String,
}

/// What is kept of one profile, and where.
#[derive(Debug, PartialEq, Eq)]
pub struct StoredProfile {
    /// The identifier under which the profile is kept.
    pub id: String,
    /// The name of the file for the pprof bytes.
    pub raw_file: String,
    /// The name of the file for the JSON text.
    pub json_file: String,
    /// The flame graph as JSON text.
    pub json: String,
}

/// A lower-case hexadecimal digit.
pub open spec fn is_lower_hex(c: char) -> bool {
    ('0' as u32 <= c as u32 <= '9' as u32) || ('a' as u32 <= c as u32 <= 'f' as u32)
}

/// The shape of a profile identifier: 32 lower-case hexadecimal digits in
/// groups of 8, 4, 4, 4 and 12 with hyphens between them, the third group
/// beginning with `4` and the fourth with one of `8`, `9`, `a`, `b`.
pub open spec fn is_profile_id(id: Seq<char>) -> bool {
    &&& id.len() == 36
    &&& forall|i: int|
        0 <= i < 36 ==> if i == 8 || i == 13 || i == 18 || i == 23 {
            #[trigger] id[i] == '-'
        } else {
            is_lower_hex(id[i])
        }
    &&& id[14] == '4'
    &&& (id[19] == '8' || id[19] == '9' || id[19] == 'a' || id[19] == 'b')
}

/// The name of the file that holds the pprof bytes of a profile.
pub open spec fn raw_file_name(id: Seq<char>) -> Seq<char> {
    "profile_"@ + id + ".pb"@
}

/// The name of the file that holds the JSON text of a profile.
pub open spec fn json_file_name(id: Seq<char>) -> Seq<char> {
    "profile_"@ + id + ".json"@
}

/// The body of the answer for an identifier that the store lacks.
pub open spec fn not_found_body() -> Seq<char> {
    "{\"error\":\"Profile not found\"}"@
}

/// The answer to a request for `id`: the stored JSON with status 200, or
/// status 404.
pub open spec fn reply_for(store: Map<Seq<char>, Seq<char>>, id: Seq<char>) -> (u16, Seq<char>) {
    if store.contains_key(id) {
        (200u16, store[id])
    } else {
        (404u16, not_found_body())
    }
}

/// The status for each reason.
pub open spec fn status_for(error: IngestError) -> StatusCode {
    match error {
        IngestError::InvalidProfile => StatusCode::InvalidArgument,
        IngestError::DeadlineExceeded => StatusCode::DeadlineExceeded,
        IngestError::BuilderFailure => StatusCode::Internal,
        IngestError::StorageIo { .. } => StatusCode::Internal,
    }
}

/// What the worker owes for the bytes: the flame graph of the profile they
/// decode to, or the reason why there is none.
pub open spec fn processed(data: Seq<u8>, result: Result<FlameGraphData, IngestError>) -> bool {
    match decoded(data) {
        None => result == Err::<FlameGraphData, IngestError>(IngestError::InvalidProfile),
        Some(p) => if p.counted() && fits(resolve(p)) {
            result is Ok && result->Ok_0@ == flame_graph(p)
        } else {
            result == Err::<FlameGraphData, IngestError>(IngestError::BuilderFailure)
        },
    }
}

/// The flame graphs that the collector holds, each as JSON text under its
/// identifier.
pub struct ProfileStore {
    profiles: StringMap<String>,
}

impl View for ProfileStore {
    type V = Map<Seq<char>, Seq<char>>;

    closed spec fn view(&self) -> Map<Seq<char>, Seq<char>> {
        self.profiles@.map_values(|json: String| json@)
    }
}

impl ProfileStore {
    /// The store is in order.
    pub closed spec fn wf(&self) -> bool {
        self.profiles.wf()
    }

    /// A store without profiles.
    pub fn new() -> (store: ProfileStore)
        ensures
            store.wf(),
            store@ == Map::<Seq<char>, Seq<char>>::empty(),
    {
        let store = ProfileStore { profiles: StringMap::new() };
        assert(store@ =~= Map::<Seq<char>, Seq<char>>::empty());
        store
    }

    /// Keeps `json` under `id`, in place of what was kept there.
    pub fn put(&mut self, id: String, json: String)
        requires
            old(self).wf(),
        ensures
            final(self).wf(),
            final(self)@ == old(self)@.insert(id@, json@),
    {
        self.profiles.insert(id, json);
        assert(self@ =~= old(self)@.insert(id@, json@));
    }

    /// The JSON text kept under `id`, if any.
    pub fn get(&self, id: &str) -> (json: Option<&String>)
        requires
            self.wf(),
        ensures
            match json {
                Some(text) => self@.contains_key(id@) && text@ == self@[id@],
                None => !self@.contains_key(id@),
            },
    {
        self.profiles.get(id)
    }
}

/// Asks the `uuid` crate for a random identifier, `Uuid::new_v4`, and for
/// its text, `to_string`. Whatever number was drawn, the text has the shape
/// of a version 4 identifier in hyphenated lower-case form.
#[verifier::external_body]
fn random_id() -> (id: String)
    ensures
        is_profile_id(id@),
{
    uuid::Uuid::new_v4().to_string()
}

/// A fresh identifier for a profile.
pub fn new_profile_id() -> (id: String)
    ensures
        is_profile_id(id@),
{
    random_id()
}

/// The status of the answer for a profile that was not taken in.
pub fn status_of(error: &IngestError) -> (status: StatusCode)
    ensures
        status == status_for(*error),
{
    match error {
        IngestError::InvalidProfile => StatusCode::InvalidArgument,
        IngestError::DeadlineExceeded => StatusCode::DeadlineExceeded,
        IngestError::BuilderFailure => StatusCode::Internal,
        IngestError::StorageIo { .. } => StatusCode::Internal,
    }
}

/// The message of the answer for a profile that was not taken in.
pub fn status_message(error: &IngestError) -> (message: String)
    ensures
        message@ == match *error {
            IngestError::InvalidProfile => "Invalid profile data"@,
            IngestError::DeadlineExceeded => "Profile processing timed out"@,
            IngestError::BuilderFailure => "Profile processing failed"@,
            IngestError::StorageIo { message } => message@,
        },
{
    match error {
        IngestError::InvalidProfile => String::from_str("Invalid profile data"),
        IngestError::DeadlineExceeded => String::from_str("Profile processing timed out"),
        IngestError::BuilderFailure => String::from_str("Profile processing failed"),
        IngestError::StorageIo { message } => message.clone(),
    }
}

/// Decodes pprof bytes and builds the flame graph of the profile: the work
/// that is done under the deadline.
pub fn process_profile(data: &[u8]) -> (result: Result<FlameGraphData, IngestError>)
    ensures
        processed(data@, result),
{
    match decode_profile(data) {
        Err(_) => Err(IngestError::InvalidProfile),
        Ok(profile) => match FlameGraphData::try_from_profile(&profile) {
            Some(flame) => Ok(flame),
            None => Err(IngestError::BuilderFailure),
        },
    }
}

/// What follows from the way the work ended: the worker's own result, or
/// the reason why there is none.
pub fn conclude(outcome: WorkOutcome) -> (result: Result<FlameGraphData, IngestError>)
    ensures
        result == match outcome {
            WorkOutcome::Finished(r) => r,
            WorkOutcome::WorkerFailed => Err(IngestError::BuilderFailure),
            WorkOutcome::TimedOut => Err(IngestError::DeadlineExceeded),
        },
{
    match outcome {
        WorkOutcome::Finished(r) => r,
        WorkOutcome::WorkerFailed => Err(IngestError::BuilderFailure),
        WorkOutcome::TimedOut => Err(IngestError::DeadlineExceeded),
    }
}

/// Keeps a flame graph under `id` and says which files are to hold the
/// profile.
pub fn store_profile(store: &mut ProfileStore, id: String, flame: &FlameGraphData) -> (stored:
    StoredProfile)
    requires
        old(store).wf(),
    ensures
        final(store).wf(),
        final(store)@ == old(store)@.insert(id@, data_json(flame@)),
        stored.id@ == id@,
        stored.json@ == data_json(flame@),
        stored.raw_file@ == raw_file_name(id@),
        stored.json_file@ == json_file_name(id@),
{
    let json = flame.to_json();
    let mut raw_file = String::from_str("profile_");
    raw_file.append(id.as_str());
    raw_file.append(".pb");
    let mut json_file = String::from_str("profile_");
    json_file.append(id.as_str());
    json_file.append(".json");
    store.put(id.clone(), json.clone());
    StoredProfile { id, raw_file, json_file, json }
}

/// Ends an ingestion call. Where the work gave a flame graph, it is kept
/// under a fresh identifier; otherwise the store stays as it was.
pub fn handle_request(store: &mut ProfileStore, outcome: WorkOutcome) -> (result: Result<
    StoredProfile,
    IngestError,
>)
    requires
        old(store).wf(),
    ensures
        final(store).wf(),
        match (outcome, result) {
            (WorkOutcome::Finished(Ok(flame)), Ok(stored)) => {
                &&& is_profile_id(stored.id@)
                &&& stored.json@ == data_json(flame@)
                &&& stored.raw_file@ == raw_file_name(stored.id@)
                &&& stored.json_file@ == json_file_name(stored.id@)
                &&& final(store)@ == old(store)@.insert(stored.id@, stored.json@)
            },
            (WorkOutcome::Finished(Err(e)), Err(error)) => error == e && final(store)@ == old(
                store,
            )@,
            (WorkOutcome::WorkerFailed, Err(error)) => error == IngestError::BuilderFailure
                && final(store)@ == old(store)@,
            (WorkOutcome::TimedOut, Err(error)) => error == IngestError::DeadlineExceeded
                && final(store)@ == old(store)@,
            _ => false,
        },
{
    match conclude(outcome) {
        Ok(flame) => {
            let id = new_profile_id();
            Ok(store_profile(store, id, &flame))
        },
        Err(error) => Err(error),
    }
}

/// Answers a request for the profile `id`.
pub fn get_profile(store: &ProfileStore, id: &str) -> (reply: HttpReply)
    requires
        store.wf(),
    ensures
        (reply.status, reply.body@) == reply_for(store@, id@),
{
    match store.get(id) {
        Some(json) => HttpReply { status: 200, body: json.clone() },
        None => HttpReply { status: 404, body: String::from_str("{\"error\":\"Profile not found\"}") },
    }
}

/// A request for an identifier is answered by what the store keeps under
/// it, and by nothing else: keeping another profile changes no answer.
pub proof fn lemma_reply_stable(
    store: Map<Seq<char>, Seq<char>>,
    id: Seq<char>,
    other: Seq<char>,
    json: Seq<char>,
)
    requires
        other != id,
    ensures
        reply_for(store.insert(other, json), id) == reply_for(store, id),
{
}

} // verus!
