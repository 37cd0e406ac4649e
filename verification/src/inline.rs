//! The decisions of an inline shell completion request: which buffer is
//! completed, what a cached completion inserts, which completions are kept
//! for later, and how the request waits, retries and answers.
use vstd::prelude::*;

use crate::text::{concat_str, strip_prefix_or_keep, strip_prefix_or_keep_str, trim_start, trim_start_str};

verus! {

/// The buffer a request completes: the typed line without leading
/// whitespace.
pub fn request_buffer(buffer: &str) -> (res: String)
    ensures
        res@ == trim_start(buffer@),
{
    trim_start_str(buffer)
}

/// What a cached completion inserts after `buffer`: the cached full line
/// without the part already typed (the whole line when it does not start
/// with the buffer).
pub fn cached_insert_text(insert_text: &str, buffer: &str) -> (res: String)
    ensures
        res@ == strip_prefix_or_keep(insert_text@, buffer@),
        buffer@.is_prefix_of(insert_text@) ==> buffer@ + res@ == insert_text@,
{
    let res = strip_prefix_or_keep_str(insert_text, buffer);
    assert(buffer@.is_prefix_of(insert_text@) ==> buffer@ + res@ =~= insert_text@);
    res
}

/// The line that a completion would produce: the buffer followed by it.
pub fn full_text(buffer: &str, completion: &str) -> (res: String)
    ensures
        res@ == buffer@ + completion@,
{
    concat_str(buffer, completion)
}

/// How a completion enters the completion cache: the one offered now,
/// or an alternative kept for later keystrokes.
pub enum CacheRank {
    Chosen,
    Alternative,
}

/// A line to put in the completion cache.
pub struct CacheInsert {
    pub full_text: String,
    pub rank: CacheRank,
}

/// What a response with cleaned completions leads to.
pub struct CompletionPlan {
    /// Cache entries, in the order in which they are inserted.
    pub cache_inserts: Vec<CacheInsert>,
    /// The completion sent back, if any.
    pub insert_text: Option<String>,
}

/// The alternatives among the first `k` completions (all but the first),
/// as cache entries: those that are not empty and whose full line is valid.
pub open spec fn alternative_inserts(
    buffer: Seq<char>,
    completions: Seq<Seq<char>>,
    valid: Seq<bool>,
    k: nat,
) -> Seq<(Seq<char>, CacheRank)>
    decreases k,
{
    if k <= 1 || k > completions.len() {
        Seq::empty()
    } else {
        let earlier = alternative_inserts(buffer, completions, valid, (k - 1) as nat);
        let c = completions[k - 1];
        if c.len() > 0 && valid[k - 1] {
            earlier.push((buffer + c, CacheRank::Alternative))
        } else {
            earlier
        }
    }
}

/// All cache entries of a response: the alternatives, then the first
/// completion when it is valid and not empty.
pub open spec fn planned_inserts(buffer: Seq<char>, completions: Seq<Seq<char>>, valid: Seq<bool>) -> Seq<
    (Seq<char>, CacheRank),
> {
    alternative_inserts(buffer, completions, valid, completions.len())
        + if completions.len() > 0 && valid[0] && completions[0].len() > 0 {
        seq![(buffer + completions[0], CacheRank::Chosen)]
    } else {
        Seq::empty()
    }
}

/// The completion sent back: the first one, when its full line is valid.
pub open spec fn planned_insert_text(completions: Seq<Seq<char>>, valid: Seq<bool>) -> Option<Seq<char>> {
    if completions.len() > 0 && valid[0] {
        Some(completions[0])
    } else {
        None
    }
}

/// The views of the cache entries.
pub open spec fn inserts_view(inserts: Seq<CacheInsert>) -> Seq<(Seq<char>, CacheRank)> {
    inserts.map_values(|e: CacheInsert| (e.full_text@, e.rank))
}

/// The texts of a list of strings.
pub open spec fn texts(strings: Seq<String>) -> Seq<Seq<char>> {
    strings.map_values(|s: String| s@)
}

/// Decides what to cache and what to send for a response whose cleaned
/// completions are `completions`, where `valid[i]` tells whether the full
/// line `buffer + completions[i]` passed validation.
pub fn plan_completions(buffer: &str, completions: &Vec<String>, valid: &Vec<bool>) -> (res:
    CompletionPlan)
    requires
        valid.len() == completions.len(),
    ensures
        inserts_view(res.cache_inserts@) == planned_inserts(buffer@, texts(completions@), valid@),
        match res.insert_text {
            Some(t) => planned_insert_text(texts(completions@), valid@) == Some(t@),
            None => planned_insert_text(texts(completions@), valid@) is None,
        },
{
    let ghost cs = texts(completions@);
    let mut inserts: Vec<CacheInsert> = Vec::new();
    let mut i: usize = 1;
    while i < completions.len()
        invariant
            valid.len() == completions.len(),
            cs == texts(completions@),
            1 <= i <= completions.len() || (i == 1 && completions.len() == 0),
            inserts_view(inserts@) == alternative_inserts(buffer@, cs, valid@, i as nat),
        decreases completions.len() - i,
    {
        let c = &completions[i];
        assert(cs[i as int] == c@);
        if !c.as_str().is_empty() && valid[i] {
            let t = full_text(buffer, c.as_str());
            inserts.push(CacheInsert { full_text: t, rank: CacheRank::Alternative });
            assert(inserts_view(inserts@) =~= alternative_inserts(buffer@, cs, valid@, (i + 1) as nat));
        } else {
            assert(c@.len() == 0 || !valid@[i as int]);
        }
        i = i + 1;
    }
    assert(inserts_view(inserts@) == alternative_inserts(buffer@, cs, valid@, cs.len()));
    if completions.len() > 0 {
        let first = &completions[0];
        assert(cs[0] == first@);
        let ghost before = inserts@;
        if valid[0] {
            if !first.as_str().is_empty() {
                let t = full_text(buffer, first.as_str());
                inserts.push(CacheInsert { full_text: t, rank: CacheRank::Chosen });
                assert(inserts_view(inserts@) =~= inserts_view(before) + seq![
                    (buffer@ + cs[0], CacheRank::Chosen),
                ]);
            } else {
                assert(inserts_view(inserts@) =~= planned_inserts(buffer@, cs, valid@));
            }
            CompletionPlan { cache_inserts: inserts, insert_text: Some(first.clone()) }
        } else {
            assert(inserts_view(inserts@) =~= planned_inserts(buffer@, cs, valid@));
            CompletionPlan { cache_inserts: inserts, insert_text: None }
        }
    } else {
        assert(inserts_view(inserts@) =~= planned_inserts(buffer@, cs, valid@));
        CompletionPlan { cache_inserts: inserts, insert_text: None }
    }
}

/// The cache entry of completion `i`, kept when it is not empty and its
/// full line is valid.
pub open spec fn kept_alternative(completions: Seq<Seq<char>>, valid: Seq<bool>, i: int) -> bool {
    completions[i].len() > 0 && valid[i]
}

/// The alternatives cached for a response are exactly the completions
/// after the first that are not empty and whose full line is valid, every
/// one of them, in the service's order, each as the buffer followed by it.
pub proof fn law_alternatives_are_the_valid_rest(
    buffer: Seq<char>,
    completions: Seq<Seq<char>>,
    valid: Seq<bool>,
    k: nat,
)
    requires
        valid.len() == completions.len(),
        1 <= k <= completions.len(),
    ensures
        alternative_inserts(buffer, completions, valid, k) == Seq::new((k - 1) as nat, |j: int| j + 1)
            .filter(|i: int| kept_alternative(completions, valid, i))
            .map_values(|i: int| (buffer + completions[i], CacheRank::Alternative)),
    decreases k,
{
    reveal(Seq::filter);
    let pred = |i: int| kept_alternative(completions, valid, i);
    let f = |i: int| (buffer + completions[i], CacheRank::Alternative);
    let idx = Seq::new((k - 1) as nat, |j: int| j + 1);
    if k == 1 {
        assert(idx =~= Seq::<int>::empty());
        assert(idx.filter(pred).map_values(f) =~= Seq::<(Seq<char>, CacheRank)>::empty());
    } else {
        law_alternatives_are_the_valid_rest(buffer, completions, valid, (k - 1) as nat);
        let prev = Seq::new((k - 2) as nat, |j: int| j + 1);
        assert(idx.drop_last() =~= prev);
        assert(idx.last() == k - 1);
        let fp = prev.filter(pred);
        if pred(k - 1) {
            assert(fp.push(k - 1).map_values(f) =~= fp.map_values(f).push(f(k - 1)));
        }
    }
}

/// The completion sent back is the service's first one, and only when its
/// full line is valid; it is sent even when empty.
pub proof fn law_first_valid_completion_is_sent(completions: Seq<Seq<char>>, valid: Seq<bool>)
    requires
        valid.len() == completions.len(),
    ensures
        planned_insert_text(completions, valid) matches Some(t) ==> completions.len() > 0
            && t == completions[0] && valid[0],
        planned_insert_text(completions, valid) is None ==> completions.len() == 0 || !valid[0],
{
}

proof fn lemma_alternatives_shape(
    buffer: Seq<char>,
    completions: Seq<Seq<char>>,
    valid: Seq<bool>,
    k: nat,
)
    requires
        valid.len() == completions.len(),
    ensures
        forall|j: int|
            0 <= j < alternative_inserts(buffer, completions, valid, k).len() ==> {
                let e = #[trigger] alternative_inserts(buffer, completions, valid, k)[j];
                &&& e.1 == CacheRank::Alternative
                &&& buffer.is_prefix_of(e.0)
                &&& e.0.len() > buffer.len()
            },
    decreases k,
{
    if k > 1 && k <= completions.len() {
        lemma_alternatives_shape(buffer, completions, valid, (k - 1) as nat);
        let c = completions[k - 1];
        assert(buffer =~= (buffer + c).subrange(0, buffer.len() as int));
    }
}

/// Every cache entry a response produces extends the typed buffer by a
/// non-empty completion; only the last one can be the chosen completion,
/// and it is there exactly when the first completion is sent and not empty.
pub proof fn law_cache_entries_extend_buffer(
    buffer: Seq<char>,
    completions: Seq<Seq<char>>,
    valid: Seq<bool>,
)
    requires
        valid.len() == completions.len(),
    ensures
        forall|j: int|
            0 <= j < planned_inserts(buffer, completions, valid).len() ==> {
                let e = #[trigger] planned_inserts(buffer, completions, valid)[j];
                &&& buffer.is_prefix_of(e.0)
                &&& e.0.len() > buffer.len()
                &&& (e.1 == CacheRank::Chosen ==> j == planned_inserts(buffer, completions, valid).len()
                    - 1)
            },
        (exists|j: int|
            0 <= j < planned_inserts(buffer, completions, valid).len()
                && #[trigger] planned_inserts(buffer, completions, valid)[j].1 == CacheRank::Chosen)
            <==> (planned_insert_text(completions, valid) matches Some(t) && t.len() > 0),
{
    lemma_alternatives_shape(buffer, completions, valid, completions.len());
    let alts = alternative_inserts(buffer, completions, valid, completions.len());
    let all = planned_inserts(buffer, completions, valid);
    if completions.len() > 0 && valid[0] && completions[0].len() > 0 {
        assert(buffer =~= (buffer + completions[0]).subrange(0, buffer.len() as int));
        assert(all[alts.len() as int] == (buffer + completions[0], CacheRank::Chosen));
    }
    assert forall|j: int| 0 <= j < all.len() implies {
        let e = #[trigger] all[j];
        &&& buffer.is_prefix_of(e.0)
        &&& e.0.len() > buffer.len()
        &&& (e.1 == CacheRank::Chosen ==> j == all.len() - 1)
    } by {
        if j < alts.len() {
            assert(all[j] == alts[j]);
        }
    }
    if exists|j: int| 0 <= j < all.len() && #[trigger] all[j].1 == CacheRank::Chosen {
        let j = choose|j: int| 0 <= j < all.len() && #[trigger] all[j].1 == CacheRank::Chosen;
        if j < alts.len() {
            assert(all[j] == alts[j]);
        }
    }
}

/// The language of the file that a prompt is sent as.
pub enum LanguageName {
    Shell,
}

/// What is sent to the recommendation service: the prompt as the text
/// left of the cursor in a shell file named `history.sh`, nothing right of
/// it, asking for one result from the start.
pub struct RecommendationRequest {
    pub left_file_content: String,
    pub right_file_content: String,
    pub filename: String,
    pub language: LanguageName,
    pub max_results: i32,
    pub next_token: Option<String>,
}

/// The request for recommendations after `prompt`.
pub fn recommendation_request(prompt: String) -> (res: RecommendationRequest)
    ensures
        res.left_file_content@ == prompt@,
        res.right_file_content@ == Seq::<char>::empty(),
        res.filename@ == "history.sh"@,
        res.language == LanguageName::Shell,
        res.max_results == 1,
        res.next_token is None,
{
    RecommendationRequest {
        left_file_content: prompt,
        right_file_content: String::new(),
        filename: "history.sh".to_owned(),
        language: LanguageName::Shell,
        max_results: 1,
        next_token: None,
    }
}

// ---------------------------------------------------------------------------
// Waiting, retrying and answering
// ---------------------------------------------------------------------------

/// How many times a request is sent to the recommendation service at most.
pub const MAX_ATTEMPTS: u8 = 3;

/// Where a request stands. `attempt` counts the attempts made before the
/// current one.
pub enum RequestPhase {
    Connecting,
    Debouncing { attempt: u8 },
    BuildingPrompt { attempt: u8 },
    AwaitingRecommendations { attempt: u8 },
    BackingOff { attempt: u8 },
    Finished,
}

/// What happened since the last step.
pub enum RequestEvent {
    /// The client of the recommendation service was created, or not.
    ClientConnected { ok: bool },
    /// The debounce delay passed; `still_latest` tells whether no newer
    /// request arrived meanwhile.
    DebounceElapsed { still_latest: bool },
    /// The prompt was built from the history, or no prompt fits.
    PromptBuilt { has_prompt: bool },
    /// The service answered; `throttled` when it refused for too many
    /// requests.
    RecommendationsReceived { throttled: bool },
    /// The pause after a throttled answer passed.
    BackoffElapsed,
}

/// What the request handler does next.
pub enum RequestAction {
    /// Creates the client of the recommendation service.
    Connect,
    /// Waits for the debounce delay.
    WaitDebounce,
    /// Answers with no completion (a newer request supersedes this one).
    SendEmptyCompletion,
    /// Sends the completion found in the cache.
    SendCachedCompletion,
    /// Queries the history and builds the prompt.
    BuildPrompt,
    /// Asks the service for recommendations.
    RequestRecommendations,
    /// Waits before trying again after a throttled answer.
    WaitBackoff,
    /// Processes the recommendations and answers with the result.
    SendCompletion,
    /// Ends without answering.
    Stop,
}

impl RequestPhase {
    /// Attempts stay below the limit.
    pub open spec fn well_formed(self) -> bool {
        match self {
            RequestPhase::Connecting => true,
            RequestPhase::Debouncing { attempt } => attempt < MAX_ATTEMPTS,
            RequestPhase::BuildingPrompt { attempt } => attempt < MAX_ATTEMPTS,
            RequestPhase::AwaitingRecommendations { attempt } => attempt < MAX_ATTEMPTS,
            RequestPhase::BackingOff { attempt } => attempt < MAX_ATTEMPTS,
            RequestPhase::Finished => true,
        }
    }

    /// Whether `event` is what the handler waits for in this phase.
    pub open spec fn expects(self, event: RequestEvent) -> bool {
        match (self, event) {
            (RequestPhase::Connecting, RequestEvent::ClientConnected { .. }) => true,
            (RequestPhase::Debouncing { .. }, RequestEvent::DebounceElapsed { .. }) => true,
            (RequestPhase::BuildingPrompt { .. }, RequestEvent::PromptBuilt { .. }) => true,
            (
                RequestPhase::AwaitingRecommendations { .. },
                RequestEvent::RecommendationsReceived { .. },
            ) => true,
            (RequestPhase::BackingOff { .. }, RequestEvent::BackoffElapsed) => true,
            _ => false,
        }
    }

    /// The number of steps the request can still take at most.
    pub open spec fn remaining_steps(self) -> nat {
        match self {
            RequestPhase::Connecting => (MAX_ATTEMPTS * 4 + 1) as nat,
            RequestPhase::Debouncing { attempt } => ((MAX_ATTEMPTS - attempt) * 4) as nat,
            RequestPhase::BuildingPrompt { attempt } => ((MAX_ATTEMPTS - attempt) * 4 - 1) as nat,
            RequestPhase::AwaitingRecommendations { attempt } => ((MAX_ATTEMPTS - attempt) * 4
                - 2) as nat,
            RequestPhase::BackingOff { attempt } => ((MAX_ATTEMPTS - attempt) * 4 - 3) as nat,
            RequestPhase::Finished => 0,
        }
    }
}

/// The transition of a request on an event.
pub open spec fn step_spec(phase: RequestPhase, event: RequestEvent) -> (RequestPhase, RequestAction) {
    match (phase, event) {
        (RequestPhase::Connecting, RequestEvent::ClientConnected { ok }) => {
            if ok {
                (RequestPhase::Debouncing { attempt: 0 }, RequestAction::WaitDebounce)
            } else {
                (RequestPhase::Finished, RequestAction::Stop)
            }
        },
        (RequestPhase::Debouncing { attempt }, RequestEvent::DebounceElapsed { still_latest }) => {
            if still_latest {
                (RequestPhase::BuildingPrompt { attempt }, RequestAction::BuildPrompt)
            } else {
                (RequestPhase::Finished, RequestAction::SendEmptyCompletion)
            }
        },
        (RequestPhase::BuildingPrompt { attempt }, RequestEvent::PromptBuilt { has_prompt }) => {
            if has_prompt {
                (
                    RequestPhase::AwaitingRecommendations { attempt },
                    RequestAction::RequestRecommendations,
                )
            } else {
                (RequestPhase::Finished, RequestAction::Stop)
            }
        },
        (
            RequestPhase::AwaitingRecommendations { attempt },
            RequestEvent::RecommendationsReceived { throttled },
        ) => {
            if throttled {
                (RequestPhase::BackingOff { attempt }, RequestAction::WaitBackoff)
            } else {
                (RequestPhase::Finished, RequestAction::SendCompletion)
            }
        },
        (RequestPhase::BackingOff { attempt }, RequestEvent::BackoffElapsed) => {
            if attempt + 1 < MAX_ATTEMPTS {
                (RequestPhase::Debouncing { attempt: (attempt + 1) as u8 }, RequestAction::WaitDebounce)
            } else {
                (RequestPhase::Finished, RequestAction::Stop)
            }
        },
        _ => (RequestPhase::Finished, RequestAction::Stop),
    }
}

/// How a request begins: nothing happens while inline completion is
/// disabled, a cached completion is answered at once, and otherwise the
/// client of the recommendation service is created.
pub fn start_request(inline_enabled: bool, cache_hit: bool) -> (res: (RequestPhase, RequestAction))
    ensures
        res == (if !inline_enabled {
            (RequestPhase::Finished, RequestAction::Stop)
        } else if cache_hit {
            (RequestPhase::Finished, RequestAction::SendCachedCompletion)
        } else {
            (RequestPhase::Connecting, RequestAction::Connect)
        }),
        res.0.well_formed(),
{
    if !inline_enabled {
        (RequestPhase::Finished, RequestAction::Stop)
    } else if cache_hit {
        (RequestPhase::Finished, RequestAction::SendCachedCompletion)
    } else {
        (RequestPhase::Connecting, RequestAction::Connect)
    }
}

/// The next phase and action of a request after `event`.
pub fn next_step(phase: RequestPhase, event: RequestEvent) -> (res: (RequestPhase, RequestAction))
    requires
        phase.well_formed(),
        phase.expects(event),
    ensures
        res == step_spec(phase, event),
        res.0.well_formed(),
        res.0.remaining_steps() < phase.remaining_steps(),
        (res.1 == RequestAction::SendEmptyCompletion || res.1 == RequestAction::SendCompletion
            || res.1 == RequestAction::Stop) <==> res.0 == RequestPhase::Finished,
{
    match (phase, event) {
        (RequestPhase::Connecting, RequestEvent::ClientConnected { ok }) => {
            if ok {
                (RequestPhase::Debouncing { attempt: 0 }, RequestAction::WaitDebounce)
            } else {
                (RequestPhase::Finished, RequestAction::Stop)
            }
        },
        (RequestPhase::Debouncing { attempt }, RequestEvent::DebounceElapsed { still_latest }) => {
            if still_latest {
                (RequestPhase::BuildingPrompt { attempt }, RequestAction::BuildPrompt)
            } else {
                (RequestPhase::Finished, RequestAction::SendEmptyCompletion)
            }
        },
        (RequestPhase::BuildingPrompt { attempt }, RequestEvent::PromptBuilt { has_prompt }) => {
            if has_prompt {
                (
                    RequestPhase::AwaitingRecommendations { attempt },
                    RequestAction::RequestRecommendations,
                )
            } else {
                (RequestPhase::Finished, RequestAction::Stop)
            }
        },
        (
            RequestPhase::AwaitingRecommendations { attempt },
            RequestEvent::RecommendationsReceived { throttled },
        ) => {
            if throttled {
                (RequestPhase::BackingOff { attempt }, RequestAction::WaitBackoff)
            } else {
                (RequestPhase::Finished, RequestAction::SendCompletion)
            }
        },
        (RequestPhase::BackingOff { attempt }, RequestEvent::BackoffElapsed) => {
            if attempt + 1 < MAX_ATTEMPTS {
                (RequestPhase::Debouncing { attempt: attempt + 1 }, RequestAction::WaitDebounce)
            } else {
                (RequestPhase::Finished, RequestAction::Stop)
            }
        },
        _ => (RequestPhase::Finished, RequestAction::Stop),
    }
}

/// The pause after a throttled answer: one second less the debounce
/// delay, and no pause when the debounce delay is a second or more
/// (`Duration::from_secs(1).saturating_sub(debounce)`, in milliseconds).
pub fn backoff_millis(debounce_millis: u64) -> (res: u64)
    ensures
        res == (if debounce_millis >= 1000 { 0 } else { 1000 - debounce_millis }),
{
    if debounce_millis >= 1000 {
        0
    } else {
        1000 - debounce_millis
    }
}

/// Every answer the service gives without throttling is processed and
/// sent, on the first attempt and on every retry alike; a throttled answer
/// always leads to the back-off pause of the same attempt.
pub proof fn law_unthrottled_answer_is_always_sent(attempt: u8)
    requires
        attempt < MAX_ATTEMPTS,
    ensures
        step_spec(
            RequestPhase::AwaitingRecommendations { attempt },
            RequestEvent::RecommendationsReceived { throttled: false },
        ) == (RequestPhase::Finished, RequestAction::SendCompletion),
        step_spec(
            RequestPhase::AwaitingRecommendations { attempt },
            RequestEvent::RecommendationsReceived { throttled: true },
        ) == (RequestPhase::BackingOff { attempt }, RequestAction::WaitBackoff),
{
}

/// Only the back-off limit looks at the attempt number: waiting, building
/// the prompt and receiving recommendations act the same on every attempt,
/// keep the attempt number, and a newer request or a missing prompt ends
/// any attempt the same way.
pub proof fn law_attempt_only_matters_for_retries(a: u8, b: u8, event: RequestEvent)
    requires
        a < MAX_ATTEMPTS,
        b < MAX_ATTEMPTS,
    ensures
        (event is DebounceElapsed ==> step_spec(RequestPhase::Debouncing { attempt: a }, event).1
            == step_spec(RequestPhase::Debouncing { attempt: b }, event).1),
        (event is PromptBuilt ==> step_spec(RequestPhase::BuildingPrompt { attempt: a }, event).1
            == step_spec(RequestPhase::BuildingPrompt { attempt: b }, event).1),
        (event is RecommendationsReceived ==> step_spec(
            RequestPhase::AwaitingRecommendations { attempt: a },
            event,
        ).1 == step_spec(RequestPhase::AwaitingRecommendations { attempt: b }, event).1),
        step_spec(
            RequestPhase::Debouncing { attempt: a },
            RequestEvent::DebounceElapsed { still_latest: false },
        ) == (RequestPhase::Finished, RequestAction::SendEmptyCompletion),
        step_spec(
            RequestPhase::Debouncing { attempt: a },
            RequestEvent::DebounceElapsed { still_latest: true },
        ) == (RequestPhase::BuildingPrompt { attempt: a }, RequestAction::BuildPrompt),
        step_spec(
            RequestPhase::BuildingPrompt { attempt: a },
            RequestEvent::PromptBuilt { has_prompt: false },
        ) == (RequestPhase::Finished, RequestAction::Stop),
        step_spec(
            RequestPhase::BuildingPrompt { attempt: a },
            RequestEvent::PromptBuilt { has_prompt: true },
        ) == (RequestPhase::AwaitingRecommendations { attempt: a }, RequestAction::RequestRecommendations),
{
}

/// After a throttled attempt the request tries again exactly while fewer
/// than `MAX_ATTEMPTS` attempts have been made, starting with a new
/// debounce wait; then it stops without answering. A failed client ends
/// the request before any attempt.
pub proof fn law_retries_until_attempts_run_out(attempt: u8)
    requires
        attempt < MAX_ATTEMPTS,
    ensures
        attempt + 1 < MAX_ATTEMPTS ==> step_spec(
            RequestPhase::BackingOff { attempt },
            RequestEvent::BackoffElapsed,
        ) == (RequestPhase::Debouncing { attempt: (attempt + 1) as u8 }, RequestAction::WaitDebounce),
        attempt + 1 == MAX_ATTEMPTS ==> step_spec(
            RequestPhase::BackingOff { attempt },
            RequestEvent::BackoffElapsed,
        ) == (RequestPhase::Finished, RequestAction::Stop),
        step_spec(RequestPhase::Connecting, RequestEvent::ClientConnected { ok: true }) == (
            RequestPhase::Debouncing { attempt: 0 },
            RequestAction::WaitDebounce,
        ),
        step_spec(RequestPhase::Connecting, RequestEvent::ClientConnected { ok: false }) == (
            RequestPhase::Finished,
            RequestAction::Stop,
        ),
{
}

/// A request waits for the debounce delay at most `MAX_ATTEMPTS` times and
/// answers at most once: a run of steps from the start, each on an event
/// the handler expects, takes at most `4 * MAX_ATTEMPTS + 1` steps, and
/// every answer ends it.
pub proof fn law_request_terminates(phase: RequestPhase, event: RequestEvent)
    requires
        phase.well_formed(),
        phase.expects(event),
    ensures
        step_spec(phase, event).0.well_formed(),
        step_spec(phase, event).0.remaining_steps() < phase.remaining_steps(),
        phase.remaining_steps() <= 4 * MAX_ATTEMPTS + 1,
        step_spec(phase, event).1 == RequestAction::SendEmptyCompletion || step_spec(phase, event).1
            == RequestAction::SendCompletion ==> step_spec(phase, event).0 == RequestPhase::Finished,
{
}

} // verus!
