use vstd::prelude::*;
use vstd::string::StringExecFns;

verus! {

/// Why a remote query failed: the transport broke, the endpoint answered
/// with a non-success status, or a required field was missing so the
/// payload could not be decoded.
#[derive(PartialEq, Eq, Structural, Clone, Copy, Debug)]
pub enum QueryError {
    Transport,
    Status(u16),
    Decode,
}

/// What one attempt at a remote query came back as. The transport and the
/// schema decoding run outside the library; the outcome is handed back in
/// as a plain value, one variant per failure path, so that every payload
/// shape goes through the same typed dispatch.
pub enum QueryOutcome<T> {
    Payload(T),
    Transport,
    Status(u16),
    Decode,
}

/// The result each outcome is owed: the payload on success and a typed
/// error on every failure path, never a fault.
pub open spec fn interpret_spec<T>(outcome: QueryOutcome<T>) -> Result<T, QueryError> {
    match outcome {
        QueryOutcome::Payload(t) => Ok(t),
        QueryOutcome::Transport => Err(QueryError::Transport),
        QueryOutcome::Status(code) => Err(QueryError::Status(code)),
        QueryOutcome::Decode => Err(QueryError::Decode),
    }
}

/// Turns a query outcome into the typed result the caller sees. Generic
/// over the payload shape: hero constants, weekly win counts and matchup
/// blocks all pass through here.
pub fn interpret_outcome<T>(outcome: QueryOutcome<T>) -> (r: Result<T, QueryError>)
    ensures
        r == interpret_spec(outcome),
{
    match outcome {
        QueryOutcome::Payload(t) => Ok(t),
        QueryOutcome::Transport => Err(QueryError::Transport),
        QueryOutcome::Status(code) => Err(QueryError::Status(code)),
        QueryOutcome::Decode => Err(QueryError::Decode),
    }
}

/// A remote statistics endpoint and the bearer credential it requires.
/// The credential arrives as a constructor parameter and is never read
/// from ambient state.
pub struct QueryClient {
    pub endpoint: String,
    pub credential: String,
}

/// One fully bound request: where to send it, the authorization line that
/// proves the credential, the query template, and the id bound to the
/// template's variable.
pub struct QueryRequest {
    pub endpoint: String,
    pub authorization: String,
    pub query_template: String,
    pub variable_id: u8,
}

impl QueryClient {
    pub fn new(endpoint: String, credential: String) -> (r: QueryClient)
        ensures
            r.endpoint@ == endpoint@,
            r.credential@ == credential@,
    {
        QueryClient { endpoint, credential }
    }

    /// Binds an id into a query template. The request carries the
    /// client's endpoint, a bearer authorization line built from its
    /// credential, the template unchanged, and the id.
    pub fn prepare(&self, query_template: String, variable_id: u8) -> (r: QueryRequest)
        ensures
            r.endpoint@ == self.endpoint@,
            r.authorization@ == "Bearer "@ + self.credential@,
            r.query_template@ == query_template@,
            r.variable_id == variable_id,
    {
        let authorization = String::from_str("Bearer ").concat(self.credential.as_str());
        let endpoint = self.endpoint.clone();
        QueryRequest { endpoint, authorization, query_template, variable_id }
    }
}

} // verus!
