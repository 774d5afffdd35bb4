use vstd::prelude::*;

verus! {

/// The body of a generation request, but for the sampling temperature,
/// which the caller adds when it sends the request.
pub struct GenerationRequest {
    pub model: String,
    pub prompt: String,
    /// The static instruction, followed by the context packet if any.
    pub system: Option<String>,
    pub stream: bool,
}

/// The system instruction: the static instruction, a newline, and the
/// context packet (which may be empty).
pub open spec fn system_of(instruction: Seq<char>, packet: Seq<char>) -> Seq<char> {
    instruction + seq!['\n'] + packet
}

/// Splits a text at its first newline into what stands before it and what
/// follows it; nothing when the text holds no newline.
pub open spec fn split_first_newline(s: Seq<char>) -> Option<(Seq<char>, Seq<char>)>
    decreases s.len(),
{
    if s.len() == 0 {
        None
    } else if s[0] == '\n' {
        Some((Seq::empty(), s.skip(1)))
    } else {
        match split_first_newline(s.skip(1)) {
            Some((a, b)) => Some((seq![s[0]] + a, b)),
            None => None,
        }
    }
}

/// Merges the static instruction with the context packet.
pub fn compose_system(instruction: &str, packet: &str) -> (r: String)
    ensures
        r@ == system_of(instruction@, packet@),
{
    proof {
        reveal_strlit("\n");
    }
    let mut s = String::from_str(instruction);
    s.append("\n");
    s.append(packet);
    s
}

/// Builds the request: model, prompt and streaming flag pass through, and the
/// system instruction merges the static instruction with the packet.
pub fn compose_request(model: String, prompt: String, instruction: &str, packet: &str, stream: bool) -> (r:
    GenerationRequest)
    ensures
        r.model@ == model@,
        r.prompt@ == prompt@,
        r.stream == stream,
        r.system is Some,
        r.system->0@ == system_of(instruction@, packet@),
{
    GenerationRequest { model, prompt, system: Some(compose_system(instruction, packet)), stream }
}

/// Splitting the system instruction of a composed request at its first
/// newline gives back exactly the static instruction (when it holds no
/// newline) and exactly the packet, an empty one included.
pub proof fn lemma_system_splits_back(instruction: Seq<char>, packet: Seq<char>)
    requires
        forall|k: int| 0 <= k < instruction.len() ==> instruction[k] != '\n',
    ensures
        split_first_newline(system_of(instruction, packet)) == Some((instruction, packet)),
    decreases instruction.len(),
{
    let s = system_of(instruction, packet);
    if instruction.len() == 0 {
        assert(s.skip(1) =~= packet);
    } else {
        let rest = instruction.skip(1);
        lemma_system_splits_back(rest, packet);
        assert(s.skip(1) =~= system_of(rest, packet));
        assert(seq![instruction[0]] + rest =~= instruction);
    }
}

/// The model asked for, or else the configured default.
pub fn pick_model(requested: Option<String>, default_model: &str) -> (r: String)
    ensures
        r@ == match requested {
            Some(m) => m@,
            None => default_model@,
        },
{
    match requested {
        Some(m) => m,
        None => String::from_str(default_model),
    }
}

/// The route that generates a reply.
pub const GENERATE_ROUTE: &'static str = "/api/generate";

/// The route that lists the installed models.
pub const TAGS_ROUTE: &'static str = "/api/tags";

/// The address of a route of the service: its base address followed by the
/// route.
pub fn endpoint_url(host: &str, route: &str) -> (r: String)
    ensures
        r@ == host@ + route@,
{
    let mut s = String::from_str(host);
    s.append(route);
    s
}

} // verus!
