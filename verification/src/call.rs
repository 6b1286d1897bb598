//! One call of the 42 API, step by step: which token to use, and what to send.
use crate::client::{AccessToken, Fast42, TOKEN_MARGIN};
use crate::option;
use crate::request;
use crate::request::{Body, HttpRequest, Method};
use crate::secret::SecretString;
use vstd::prelude::*;

verus! {

/// A request that waits for a token.
pub struct PendingCall<J> {
    pub method: Method,
    pub endpoint: String,
    pub body: Body<J>,
}

/// How far a call has come: what it has asked for and not yet been told.
pub enum ApiCall<J> {
    /// Whether a token is kept.
    Lookup(PendingCall<J>),
    /// A new token, of the token endpoint.
    Fetch(PendingCall<J>),
    /// That the new token is kept from now on.
    Store(PendingCall<J>),
    /// The token that was just kept.
    Reread(PendingCall<J>),
    /// The response to the request itself.
    Sent,
}

/// What a call asks to be done next.
pub enum Action<J> {
    /// Look up the token that is kept for a client.
    ReadToken { client_id: String },
    /// Send a request whose response is a token.
    FetchToken(HttpRequest<J>),
    /// Keep a token for a client, for a number of seconds.
    StoreToken { client_id: String, token: AccessToken, seconds: u64 },
    /// Send the request itself.
    Send(HttpRequest<J>),
}

/// An [`Action`] with its texts as sequences.
pub enum ActionView<J> {
    ReadToken(Seq<char>),
    FetchToken(request::HttpRequestView<J>),
    StoreToken(Seq<char>, AccessToken, nat),
    Send(request::HttpRequestView<J>),
}

impl<J> View for Action<J> {
    type V = ActionView<J>;

    open spec fn view(&self) -> ActionView<J> {
        match self {
            Action::ReadToken { client_id } => ActionView::ReadToken(client_id@),
            Action::FetchToken(request) => ActionView::FetchToken(request@),
            Action::StoreToken { client_id, token, seconds } => ActionView::StoreToken(
                client_id@,
                *token,
                *seconds as nat,
            ),
            Action::Send(request) => ActionView::Send(request@),
        }
    }
}

/// What came of an action. `R` is a response of the API, `E` an error.
pub enum Event<R, E> {
    /// The token that is kept, if there is one.
    TokenRead(Option<SecretString>),
    /// What the token endpoint answered.
    TokenFetched(Result<AccessToken, E>),
    /// The token is kept.
    TokenStored,
    /// What the request was answered.
    Responded(Result<R, E>),
}

/// What follows an event: a next action, or the outcome of the call.
pub enum Step<J, R, E> {
    Await(ApiCall<J>, Action<J>),
    Done(Result<R, E>),
}

/// A [`Step`] with its texts as sequences.
pub enum StepView<J, R, E> {
    Await(ApiCall<J>, ActionView<J>),
    Done(Result<R, E>),
}

impl<J, R, E> View for Step<J, R, E> {
    type V = StepView<J, R, E>;

    open spec fn view(&self) -> StepView<J, R, E> {
        match self {
            Step::Await(call, action) => StepView::Await(*call, action@),
            Step::Done(result) => StepView::Done(*result),
        }
    }
}

impl<J> ApiCall<J> {
    /// Whether `event` answers what this call has asked for. A new token has to last longer than
    /// the margin by which it is dropped early, and has to be there once it is kept.
    pub open spec fn awaits<R, E>(self, event: Event<R, E>) -> bool {
        match (self, event) {
            (ApiCall::Lookup(_), Event::TokenRead(_)) => true,
            (ApiCall::Fetch(_), Event::TokenFetched(Ok(token))) => token.expires_in >= TOKEN_MARGIN,
            (ApiCall::Fetch(_), Event::TokenFetched(Err(_))) => true,
            (ApiCall::Store(_), Event::TokenStored) => true,
            (ApiCall::Reread(_), Event::TokenRead(Some(_))) => true,
            (ApiCall::Sent, Event::Responded(_)) => true,
            _ => false,
        }
    }

    /// What follows `event`, where it is awaited.
    pub open spec fn after<R, E>(self, fast42: Fast42, event: Event<R, E>) -> StepView<J, R, E>
        recommends
            self.awaits(event),
    {
        match (self, event) {
            (
                ApiCall::Lookup(pending) | ApiCall::Reread(pending),
                Event::TokenRead(Some(token)),
            ) => StepView::Await(
                ApiCall::Sent,
                ActionView::Send(
                    fast42.bearer_request(
                        pending.method,
                        pending.endpoint@,
                        token@,
                        pending.body@,
                    ),
                ),
            ),
            (ApiCall::Lookup(pending), Event::TokenRead(None)) => StepView::Await(
                ApiCall::Fetch(pending),
                ActionView::FetchToken(fast42.token_request::<J>()),
            ),
            (ApiCall::Fetch(pending), Event::TokenFetched(Ok(token))) => StepView::Await(
                ApiCall::Store(pending),
                ActionView::StoreToken(
                    fast42.credentials.client_id@,
                    token,
                    (token.expires_in - TOKEN_MARGIN) as nat,
                ),
            ),
            (ApiCall::Fetch(_), Event::TokenFetched(Err(error))) => StepView::Done(Err(error)),
            (ApiCall::Store(pending), Event::TokenStored) => StepView::Await(
                ApiCall::Reread(pending),
                ActionView::ReadToken(fast42.credentials.client_id@),
            ),
            (ApiCall::Sent, Event::Responded(result)) => StepView::Done(result),
            _ => arbitrary(),
        }
    }

    /// Whether `event` answers what this call has asked for.
    pub fn is_awaiting<R, E>(&self, event: &Event<R, E>) -> (awaited: bool)
        ensures
            awaited == self.awaits(*event),
    {
        match (self, event) {
            (ApiCall::Lookup(_), Event::TokenRead(_)) => true,
            (ApiCall::Fetch(_), Event::TokenFetched(Ok(token))) => token.expires_in >= TOKEN_MARGIN,
            (ApiCall::Fetch(_), Event::TokenFetched(Err(_))) => true,
            (ApiCall::Store(_), Event::TokenStored) => true,
            (ApiCall::Reread(_), Event::TokenRead(Some(_))) => true,
            (ApiCall::Sent, Event::Responded(_)) => true,
            _ => false,
        }
    }

    /// Takes the call one step further.
    pub fn step<R, E>(self, fast42: &Fast42, event: Event<R, E>) -> (step: Step<J, R, E>)
        requires
            self.awaits(event),
        ensures
            step@ == self.after(*fast42, event),
    {
        match (self, event) {
            (
                ApiCall::Lookup(pending) | ApiCall::Reread(pending),
                Event::TokenRead(Some(token)),
            ) => {
                let request = fast42.build_request(
                    pending.method,
                    pending.endpoint.as_str(),
                    token.expose_secret().as_str(),
                    pending.body,
                );
                Step::Await(ApiCall::Sent, Action::Send(request))
            },
            (ApiCall::Lookup(pending), Event::TokenRead(None)) => Step::Await(
                ApiCall::Fetch(pending),
                Action::FetchToken(fast42.fetch_access_token()),
            ),
            (ApiCall::Fetch(pending), Event::TokenFetched(Ok(token))) => Step::Await(
                ApiCall::Store(pending),
                fast42.store_access_token(fast42.credentials.client_id.clone(), token),
            ),
            (ApiCall::Fetch(_), Event::TokenFetched(Err(error))) => Step::Done(Err(error)),
            (ApiCall::Store(pending), Event::TokenStored) => Step::Await(
                ApiCall::Reread(pending),
                fast42.get_access_token(),
            ),
            (ApiCall::Sent, Event::Responded(result)) => Step::Done(result),
            _ => vstd::pervasive::unreached(),
        }
    }

    /// The most events that this call can still wait for.
    pub open spec fn events_left(self) -> nat {
        match self {
            ApiCall::Lookup(_) => 5,
            ApiCall::Fetch(_) => 4,
            ApiCall::Store(_) => 3,
            ApiCall::Reread(_) => 2,
            ApiCall::Sent => 1,
        }
    }

    /// The actions that this call asks for while `events` come in, up to the first one that it does
    /// not await.
    pub open spec fn actions<R, E>(self, fast42: Fast42, events: Seq<Event<R, E>>) -> Seq<
        ActionView<J>,
    >
        decreases events.len(),
    {
        if events.len() == 0 || !self.awaits(events[0]) {
            Seq::empty()
        } else {
            match self.after(fast42, events[0]) {
                StepView::Await(next, action) => seq![action] + next.actions(
                    fast42,
                    events.drop_first(),
                ),
                StepView::Done(_) => Seq::empty(),
            }
        }
    }

    /// What this call comes to while `events` come in, where they bring it to its end.
    pub open spec fn outcome<R, E>(self, fast42: Fast42, events: Seq<Event<R, E>>) -> Option<
        Result<R, E>,
    >
        decreases events.len(),
    {
        if events.len() == 0 || !self.awaits(events[0]) {
            None
        } else {
            match self.after(fast42, events[0]) {
                StepView::Await(next, _) => next.outcome(fast42, events.drop_first()),
                StepView::Done(result) => Some(result),
            }
        }
    }
}

/// A token that is kept is used: no token is asked for, and the response to the request is what the
/// call comes to.
pub proof fn law_kept_token_is_used<J, R, E>(
    fast42: Fast42,
    pending: PendingCall<J>,
    token: SecretString,
    response: Result<R, E>,
)
    ensures
        ({
            let call = ApiCall::Lookup(pending);
            let events = seq![Event::TokenRead(Some(token)), Event::Responded(response)];
            &&& call.actions(fast42, events) == seq![
                ActionView::Send(
                    fast42.bearer_request(
                        pending.method,
                        pending.endpoint@,
                        token@,
                        pending.body@,
                    ),
                ),
            ]
            &&& call.outcome(fast42, events) == Some(response)
        }),
{
    let events = seq![Event::TokenRead(Some(token)), Event::<R, E>::Responded(response)];
    let rest = events.drop_first();
    assert(rest[0] == events[1]);
    reveal_with_fuel(ApiCall::actions, 3);
    reveal_with_fuel(ApiCall::outcome, 3);
}

/// Where no token is kept, one is fetched, kept for this client until [`TOKEN_MARGIN`] seconds
/// before its end, read back and used.
pub proof fn law_missing_token_is_fetched<J, R, E>(
    fast42: Fast42,
    pending: PendingCall<J>,
    fetched: AccessToken,
    token: SecretString,
    response: Result<R, E>,
)
    requires
        fetched.expires_in >= TOKEN_MARGIN,
    ensures
        ({
            let call = ApiCall::Lookup(pending);
            let client_id = fast42.credentials.client_id@;
            let events = seq![
                Event::TokenRead(None),
                Event::TokenFetched(Ok(fetched)),
                Event::TokenStored,
                Event::TokenRead(Some(token)),
                Event::Responded(response),
            ];
            &&& call.actions(fast42, events) == seq![
                ActionView::FetchToken(fast42.token_request::<J>()),
                ActionView::StoreToken(
                    client_id,
                    fetched,
                    (fetched.expires_in - TOKEN_MARGIN) as nat,
                ),
                ActionView::ReadToken(client_id),
                ActionView::Send(
                    fast42.bearer_request(
                        pending.method,
                        pending.endpoint@,
                        token@,
                        pending.body@,
                    ),
                ),
            ]
            &&& call.outcome(fast42, events) == Some(response)
        }),
{
    let events = seq![
        Event::TokenRead(None),
        Event::TokenFetched(Ok(fetched)),
        Event::TokenStored,
        Event::TokenRead(Some(token)),
        Event::<R, E>::Responded(response),
    ];
    let one = events.drop_first();
    let two = one.drop_first();
    let three = two.drop_first();
    let four = three.drop_first();
    assert(one[0] == events[1]);
    assert(two[0] == events[2]);
    assert(three[0] == events[3]);
    assert(four[0] == events[4]);
    reveal_with_fuel(ApiCall::actions, 6);
    reveal_with_fuel(ApiCall::outcome, 6);
}

/// The tokens that are kept, by client: each with the last second in which it may be read.
pub type KeptTokens = Map<Seq<char>, (AccessToken, nat)>;

/// The tokens that are kept once `actions` are performed, where `now` is the second in which a token
/// is put among them.
pub open spec fn kept_after<J>(kept: KeptTokens, actions: Seq<ActionView<J>>, now: nat) -> KeptTokens
    decreases actions.len(),
{
    if actions.len() == 0 {
        kept
    } else {
        let before = kept_after(kept, actions.drop_last(), now);
        match actions.last() {
            ActionView::StoreToken(client_id, token, seconds) => before.insert(
                client_id,
                (token, now + seconds),
            ),
            _ => before,
        }
    }
}

/// The token that can be read for a client in the second `now`, if there is one.
pub open spec fn live_token(kept: KeptTokens, client_id: Seq<char>, now: nat) -> Option<AccessToken> {
    if kept.contains_key(client_id) && now <= kept[client_id].1 {
        Some(kept[client_id].0)
    } else {
        None
    }
}

/// A token that one call fetches serves the next call too, until [`TOKEN_MARGIN`] seconds before its
/// end: the next call reads under the id that the first one stored under, finds the very same token,
/// asks for no other, sends its request with it, and leaves what is kept as it is.
///
/// `read` and `reread` are what the two calls are handed of the token that is kept.
pub proof fn law_fetched_token_serves_the_next_call<J, K, R, E>(
    fast42: Fast42,
    kept: KeptTokens,
    first: PendingCall<J>,
    second: PendingCall<K>,
    second_started: (ApiCall<K>, Action<K>),
    fetched: AccessToken,
    read: SecretString,
    reread: SecretString,
    first_response: Result<R, E>,
    second_response: Result<R, E>,
    stored_at: nat,
    read_at: nat,
)
    requires
        fetched.expires_in >= TOKEN_MARGIN,
        read@ == fetched.access_token@,
        reread@ == fetched.access_token@,
        stored_at <= read_at <= stored_at + fetched.expires_in - TOKEN_MARGIN,
        second_started.0 == ApiCall::Lookup(second),
        fast42.begins(second_started, second.method, second.endpoint@, second.body@),
    ensures
        ({
            let client_id = fast42.credentials.client_id@;
            let first_actions = ApiCall::Lookup(first).actions(
                fast42,
                seq![
                    Event::TokenRead(None),
                    Event::TokenFetched(Ok(fetched)),
                    Event::TokenStored,
                    Event::TokenRead(Some(read)),
                    Event::Responded(first_response),
                ],
            );
            let now_kept = kept_after(kept, first_actions, stored_at);
            let second_events = seq![
                Event::TokenRead(Some(reread)),
                Event::Responded(second_response),
            ];
            let second_actions = second_started.0.actions(fast42, second_events);
            &&& first_actions.contains(
                ActionView::StoreToken(
                    client_id,
                    fetched,
                    (fetched.expires_in - TOKEN_MARGIN) as nat,
                ),
            )
            &&& live_token(now_kept, client_id, stored_at) == Some(fetched)
            &&& second_started.1@ == ActionView::<K>::ReadToken(client_id)
            &&& live_token(now_kept, client_id, read_at) == Some(fetched)
            &&& second_actions == seq![
                ActionView::Send(
                    fast42.bearer_request(
                        second.method,
                        second.endpoint@,
                        fetched.access_token@,
                        second.body@,
                    ),
                ),
            ]
            &&& second_started.0.outcome(fast42, second_events) == Some(second_response)
            &&& kept_after(now_kept, second_actions, read_at) == now_kept
        }),
{
    law_missing_token_is_fetched(fast42, first, fetched, read, first_response);
    law_kept_token_is_used(fast42, second, reread, second_response);
    let actions = ApiCall::Lookup(first).actions(
        fast42,
        seq![
            Event::TokenRead(None),
            Event::TokenFetched(Ok(fetched)),
            Event::TokenStored,
            Event::TokenRead(Some(read)),
            Event::<R, E>::Responded(first_response),
        ],
    );
    let three = actions.drop_last();
    let two = three.drop_last();
    let one = two.drop_last();
    assert(actions[1] == two.last());
    assert(three.last() == actions[2]);
    assert(one.last() == actions[0]);
    assert(one.drop_last() =~= Seq::empty());
    assert(actions.contains(actions[1]));
    reveal_with_fuel(kept_after, 5);
}

/// Where no token can be had, the call comes to that error, and nothing but the token was asked for.
pub proof fn law_refused_token_ends_the_call<J, R, E>(
    fast42: Fast42,
    pending: PendingCall<J>,
    error: E,
)
    ensures
        ({
            let call = ApiCall::Lookup(pending);
            let events: Seq<Event<R, E>> = seq![
                Event::TokenRead(None),
                Event::TokenFetched(Err(error)),
            ];
            &&& call.actions(fast42, events) == seq![
                ActionView::FetchToken(fast42.token_request::<J>()),
            ]
            &&& call.outcome(fast42, events) == Some(Err::<R, E>(error))
        }),
{
    let events = seq![Event::TokenRead(None), Event::<R, E>::TokenFetched(Err(error))];
    let rest = events.drop_first();
    assert(rest[0] == events[1]);
    reveal_with_fuel(ApiCall::actions, 3);
    reveal_with_fuel(ApiCall::outcome, 3);
}

/// Every call ends: a step that does not end it leaves fewer events to wait for.
pub proof fn law_calls_end<J, R, E>(fast42: Fast42, call: ApiCall<J>, event: Event<R, E>)
    requires
        call.awaits(event),
    ensures
        call.after(fast42, event) matches StepView::Await(next, _) ==> next.events_left()
            < call.events_left(),
        call.events_left() == 1 ==> call.after(fast42, event) is Done,
{
}

/// Whatever happens, a call asks for at most one new token and sends its request at most once, as
/// the last thing that it does.
pub proof fn law_a_call_sends_once<J, R, E>(
    fast42: Fast42,
    call: ApiCall<J>,
    events: Seq<Event<R, E>>,
)
    ensures
        call.actions(fast42, events).len() < call.events_left(),
        forall|i: int|
            0 <= i < call.actions(fast42, events).len() && (#[trigger] call.actions(
                fast42,
                events,
            )[i]) is Send ==> i == call.actions(fast42, events).len() - 1,
        forall|i: int|
            0 <= i < call.actions(fast42, events).len() && (#[trigger] call.actions(
                fast42,
                events,
            )[i]) is FetchToken ==> i == 0 && call is Lookup,
    decreases events.len(),
{
    if events.len() > 0 && call.awaits(events[0]) {
        if let StepView::Await(next, action) = call.after(fast42, events[0]) {
            let rest = next.actions(fast42, events.drop_first());
            law_a_call_sends_once(fast42, next, events.drop_first());
            assert(call.actions(fast42, events) =~= seq![action] + rest);
            assert forall|i: int| 0 <= i < call.actions(fast42, events).len() implies (
            #[trigger] call.actions(fast42, events)[i]) == (if i == 0 {
                action
            } else {
                rest[i - 1]
            }) by {}
        }
    }
}

/// Whatever happens, a request that is sent is the one that the call was made for, and bears a token
/// that was read.
pub proof fn law_sent_request_bears_a_read_token<J, R, E>(
    fast42: Fast42,
    pending: PendingCall<J>,
    events: Seq<Event<R, E>>,
    i: int,
)
    requires
        0 <= i < ApiCall::Lookup(pending).actions(fast42, events).len(),
        ApiCall::Lookup(pending).actions(fast42, events)[i] is Send,
    ensures
        exists|token: SecretString|
            events.contains(Event::TokenRead(Some(token))) && ApiCall::Lookup(pending).actions(
                fast42,
                events,
            )[i] == ActionView::Send(
                #[trigger] fast42.bearer_request(
                    pending.method,
                    pending.endpoint@,
                    token@,
                    pending.body@,
                ),
            ),
{
    lemma_sent_request_bears_a_read_token(fast42, ApiCall::Lookup(pending), pending, events, i);
}

proof fn lemma_sent_request_bears_a_read_token<J, R, E>(
    fast42: Fast42,
    call: ApiCall<J>,
    pending: PendingCall<J>,
    events: Seq<Event<R, E>>,
    i: int,
)
    requires
        call == ApiCall::Lookup(pending) || call == ApiCall::Fetch(pending) || call
            == ApiCall::Store(pending) || call == ApiCall::Reread(pending),
        0 <= i < call.actions(fast42, events).len(),
        call.actions(fast42, events)[i] is Send,
    ensures
        exists|token: SecretString|
            events.contains(Event::TokenRead(Some(token))) && call.actions(fast42, events)[i]
                == ActionView::Send(
                #[trigger] fast42.bearer_request(
                    pending.method,
                    pending.endpoint@,
                    token@,
                    pending.body@,
                ),
            ),
    decreases events.len(),
{
    let rest = events.drop_first();
    if let StepView::Await(next, action) = call.after(fast42, events[0]) {
        if i == 0 {
            let token = events[0]->TokenRead_0->0;
            assert(events.contains(Event::TokenRead(Some(token))));
            assert(call.actions(fast42, events)[0] == action);
        } else if next is Sent {
            assert(next.actions(fast42, rest) =~= Seq::empty());
        } else {
            assert(call.actions(fast42, events)[i] == next.actions(fast42, rest)[i - 1]);
            lemma_sent_request_bears_a_read_token(fast42, next, pending, rest, i - 1);
            let token = choose|token: SecretString|
                rest.contains(Event::TokenRead(Some(token))) && next.actions(fast42, rest)[i - 1]
                    == ActionView::Send(
                    #[trigger] fast42.bearer_request(
                        pending.method,
                        pending.endpoint@,
                        token@,
                        pending.body@,
                    ),
                );
            let j = choose|j: int| 0 <= j < rest.len() && rest[j] == Event::<R, E>::TokenRead(Some(token));
            assert(events[j + 1] == Event::<R, E>::TokenRead(Some(token)));
        }
    }
}

/// Whatever happens, a call comes to nothing but what it was told: an error of the token endpoint,
/// or the result of the request.
pub proof fn law_outcome_was_reported<J, R, E>(
    fast42: Fast42,
    call: ApiCall<J>,
    events: Seq<Event<R, E>>,
)
    ensures
        call.outcome(fast42, events) matches Some(result) ==> {
            ||| events.contains(Event::Responded(result))
            ||| result matches Err(error) && events.contains(Event::TokenFetched(Err(error)))
        },
    decreases events.len(),
{
    if events.len() > 0 && call.awaits(events[0]) {
        match call.after(fast42, events[0]) {
            StepView::Await(next, _) => {
                let rest = events.drop_first();
                law_outcome_was_reported(fast42, next, rest);
                assert forall|event: Event<R, E>| rest.contains(event) implies events.contains(
                    event,
                ) by {
                    let j = choose|j: int| 0 <= j < rest.len() && rest[j] == event;
                    assert(events[j + 1] == event);
                }
            },
            StepView::Done(_) => {
                assert(events.contains(events[0]));
            },
        }
    }
}

/// The view of an action leaves nothing out and adds nothing.
pub proof fn law_action_view_is_whole<J>(action: Action<J>)
    ensures
        match action {
            Action::ReadToken { client_id } => action@ == ActionView::<J>::ReadToken(client_id@),
            Action::FetchToken(request) => action@ == ActionView::FetchToken(request@),
            Action::StoreToken { client_id, token, seconds } => action@
                == ActionView::<J>::StoreToken(client_id@, token, seconds as nat),
            Action::Send(request) => action@ == ActionView::Send(request@),
        },
{
}

/// The view of a step leaves nothing out and adds nothing.
pub proof fn law_step_view_is_whole<J, R, E>(step: Step<J, R, E>)
    ensures
        match step {
            Step::Await(call, action) => step@ == StepView::<J, R, E>::Await(call, action@),
            Step::Done(result) => step@ == StepView::<J, R, E>::Done(result),
        },
{
}

/// A call awaits the answer to what it asked for, and no other. A fetched token has to be good for
/// twenty seconds at least, and a token that was just kept has to be there.
pub proof fn law_calls_await_their_answers<J, R, E>(pending: PendingCall<J>, event: Event<R, E>)
    ensures
        ApiCall::Lookup(pending).awaits(event) <==> event is TokenRead,
        ApiCall::Fetch(pending).awaits(event) <==> (event matches Event::TokenFetched(fetched)
            && (fetched matches Ok(token) ==> token.expires_in >= 20)),
        ApiCall::Store(pending).awaits(event) <==> event is TokenStored,
        ApiCall::Reread(pending).awaits(event) <==> (event matches Event::TokenRead(read)
            && read is Some),
        ApiCall::<J>::Sent.awaits(event) <==> event is Responded,
{
}

/// Whatever request waits, each answer moves its call one step on: a token that is read sends the
/// request, one that is missing is fetched, one that is fetched is kept until twenty seconds before
/// its end, one that is kept is read back, and what ends the call is handed on as it is. The request
/// stays as it is until it is sent.
pub proof fn law_each_answer_moves_the_call_on<J, R, E>(
    fast42: Fast42,
    pending: PendingCall<J>,
    read: SecretString,
    fetched: AccessToken,
    error: E,
    response: Result<R, E>,
)
    requires
        fetched.expires_in >= 20,
    ensures
        ({
            let client_id = fast42.credentials.client_id@;
            let sent = StepView::<J, R, E>::Await(
                ApiCall::Sent,
                ActionView::Send(
                    request::HttpRequestView {
                        method: pending.method,
                        url: fast42.root_url@ + "/"@ + fast42.version@ + pending.endpoint@,
                        headers: seq![
                            ("Authorization"@, "Bearer "@ + read@),
                            ("Content-Type"@, "application/json"@),
                        ],
                        body: pending.body@,
                    },
                ),
            );
            let fetch = StepView::<J, R, E>::Await(
                ApiCall::Fetch(pending),
                ActionView::FetchToken(
                    request::HttpRequestView {
                        method: Method::Post,
                        url: fast42.root_url@ + "/oauth/token"@,
                        headers: seq![("Content-Type"@, "application/x-www-form-urlencoded"@)],
                        body: request::BodyView::Text(
                            "grant_type=client_credentials&client_id="@ + client_id
                                + "&client_secret="@ + fast42.credentials.client_secret@ + "&scope="@
                                + fast42.credentials.scope@,
                        ),
                    },
                ),
            );
            &&& ApiCall::Lookup(pending).after(fast42, Event::<R, E>::TokenRead(Some(read)))
                == sent
            &&& ApiCall::Reread(pending).after(fast42, Event::<R, E>::TokenRead(Some(read)))
                == sent
            &&& ApiCall::Lookup(pending).after(fast42, Event::<R, E>::TokenRead(None)) == fetch
            &&& ApiCall::Fetch(pending).after(fast42, Event::<R, E>::TokenFetched(Ok(fetched)))
                == StepView::<J, R, E>::Await(
                ApiCall::Store(pending),
                ActionView::StoreToken(client_id, fetched, (fetched.expires_in - 20) as nat),
            )
            &&& ApiCall::Fetch(pending).after(fast42, Event::<R, E>::TokenFetched(Err(error)))
                == StepView::<J, R, E>::Done(Err(error))
            &&& ApiCall::Store(pending).after(fast42, Event::<R, E>::TokenStored)
                == StepView::<J, R, E>::Await(
                ApiCall::Reread(pending),
                ActionView::ReadToken(client_id),
            )
            &&& ApiCall::<J>::Sent.after(fast42, Event::Responded(response))
                == StepView::<J, R, E>::Done(response)
        }),
{
}

/// Whatever happens, a request that is sent goes by the method of the call to the root, `/`, the
/// version and the whole endpoint, with the body of the call, and carries two headers: the token, which
/// was read, and the content type.
pub proof fn law_sent_request_is_whole_and_authorized<J, R, E>(
    fast42: Fast42,
    pending: PendingCall<J>,
    events: Seq<Event<R, E>>,
    i: int,
)
    requires
        0 <= i < ApiCall::Lookup(pending).actions(fast42, events).len(),
        ApiCall::Lookup(pending).actions(fast42, events)[i] is Send,
    ensures
        ({
            let sent = ApiCall::Lookup(pending).actions(fast42, events)[i]->Send_0;
            &&& sent.method == pending.method
            &&& sent.url == fast42.root_url@ + "/"@ + fast42.version@ + pending.endpoint@
            &&& sent.body == pending.body@
            &&& sent.headers.len() == 2
            &&& sent.headers[1] == ("Content-Type"@, "application/json"@)
            &&& exists|token: SecretString|
                #[trigger] events.contains(Event::TokenRead(Some(token))) && sent.headers[0] == (
                    "Authorization"@,
                    "Bearer "@ + token@,
                )
        }),
{
    law_sent_request_bears_a_read_token(fast42, pending, events, i);
    let token = choose|token: SecretString|
        events.contains(Event::TokenRead(Some(token))) && ApiCall::Lookup(pending).actions(
            fast42,
            events,
        )[i] == ActionView::Send(
            #[trigger] fast42.bearer_request(
                pending.method,
                pending.endpoint@,
                token@,
                pending.body@,
            ),
        );
    assert(events.contains(Event::<R, E>::TokenRead(Some(token))));
}

/// Whatever happens, a call reads and keeps tokens under the id of its client alone, asks for a token
/// with the credentials of its client alone, and keeps no token but one that was fetched, until twenty
/// seconds before its end.
pub proof fn law_a_call_acts_for_its_client<J, R, E>(
    fast42: Fast42,
    call: ApiCall<J>,
    events: Seq<Event<R, E>>,
    i: int,
)
    requires
        0 <= i < call.actions(fast42, events).len(),
    ensures
        match call.actions(fast42, events)[i] {
            ActionView::ReadToken(client_id) => client_id == fast42.credentials.client_id@,
            ActionView::FetchToken(request) => {
                &&& request.method == Method::Post
                &&& request.url == fast42.root_url@ + "/oauth/token"@
                &&& request.headers == seq![
                    ("Content-Type"@, "application/x-www-form-urlencoded"@),
                ]
                &&& request.body == request::BodyView::<J>::Text(
                    "grant_type=client_credentials&client_id="@ + fast42.credentials.client_id@
                        + "&client_secret="@ + fast42.credentials.client_secret@ + "&scope="@
                        + fast42.credentials.scope@,
                )
            },
            ActionView::StoreToken(client_id, token, seconds) => {
                &&& client_id == fast42.credentials.client_id@
                &&& events.contains(Event::TokenFetched(Ok(token)))
                &&& seconds + 20 == token.expires_in
            },
            ActionView::Send(_) => true,
        },
    decreases events.len(),
{
    let rest = events.drop_first();
    if let StepView::Await(next, action) = call.after(fast42, events[0]) {
        if i == 0 {
            assert(call.actions(fast42, events)[0] == action);
            assert(events.contains(events[0]));
        } else {
            assert(call.actions(fast42, events)[i] == next.actions(fast42, rest)[i - 1]);
            law_a_call_acts_for_its_client(fast42, next, rest, i - 1);
            if let ActionView::StoreToken(_, token, _) = call.actions(fast42, events)[i] {
                let event = Event::<R, E>::TokenFetched(Ok(token));
                let j = choose|j: int| 0 <= j < rest.len() && rest[j] == event;
                assert(events[j + 1] == event);
            }
        }
    }
}

/// What is asked for is what is sent: whatever happens, the request that a call sends goes to the
/// endpoint that was asked for with the options that were given, all of them, by the method and with
/// the body that were given.
pub proof fn law_what_is_asked_for_is_sent<J, R, E>(
    fast42: Fast42,
    started: (ApiCall<J>, Action<J>),
    method: Method,
    endpoint: Seq<char>,
    options: Seq<option::Pair>,
    body: request::BodyView<J>,
    events: Seq<Event<R, E>>,
    i: int,
)
    requires
        fast42.begins(started, method, endpoint + option::query_string(options), body),
        0 <= i < started.0.actions(fast42, events).len(),
        started.0.actions(fast42, events)[i] is Send,
    ensures
        ({
            let sent = started.0.actions(fast42, events)[i]->Send_0;
            &&& sent.method == method
            &&& sent.url == fast42.root_url@ + "/"@ + fast42.version@ + endpoint
                + option::query_string(options)
            &&& sent.body == body
        }),
{
    let pending = started.0->Lookup_0;
    law_sent_request_is_whole_and_authorized(fast42, pending, events, i);
    let root = fast42.root_url@ + "/"@ + fast42.version@;
    let query = option::query_string(options);
    assert(root + (endpoint + query) =~= root + endpoint + query);
}

} // verus!
