//! The decisions of the bot's event handlers: interactive (emoji) device
//! verification with the admin, joining rooms it is invited to, and the
//! first sync. The handlers in the application perform what these decide.
use vstd::prelude::*;

use crate::text::{join_strings, join_with, law_join_appends_last, push_str, str_eq};

verus! {

/// The state a verification request has reached.
pub enum RequestState {
    Created,
    Requested,
    Ready,
    /// The request turned into a verification; `sas` tells whether it is an
    /// emoji (SAS) verification.
    Transitioned { sas: bool },
    Done,
    Cancelled,
}

/// What the request handler does on a state.
#[derive(PartialEq, Eq, Structural, Debug)]
pub enum RequestAction {
    /// Keep waiting for the next state.
    Wait,
    /// Hand the emoji verification to its own handler and stop watching the
    /// request.
    StartSas,
    /// Stop watching the request.
    Stop,
}

pub open spec fn request_action(s: RequestState) -> RequestAction {
    match s {
        RequestState::Transitioned { sas } => if sas {
            RequestAction::StartSas
        } else {
            RequestAction::Wait
        },
        RequestState::Done | RequestState::Cancelled => RequestAction::Stop,
        _ => RequestAction::Wait,
    }
}

/// Whether a verification request from `requester` is taken up: requests
/// are restricted to the admin, and any other user's request is left
/// unanswered.
pub fn may_request_verification(requester: &str, admin_user_id: &str) -> (r: bool)
    ensures
        r == (requester@ == admin_user_id@),
{
    str_eq(requester, admin_user_id)
}

/// What to do when a verification request reaches `state`.
pub fn on_request_state(state: &RequestState) -> (r: RequestAction)
    ensures
        r == request_action(*state),
{
    match state {
        RequestState::Created | RequestState::Requested | RequestState::Ready => RequestAction::Wait,
        RequestState::Transitioned { sas } => if *sas {
            RequestAction::StartSas
        } else {
            RequestAction::Wait
        },
        RequestState::Done | RequestState::Cancelled => RequestAction::Stop,
    }
}

/// One emoji of a short authentication string.
pub struct Emoji {
    pub symbol: String,
    pub description: String,
}

/// The state an emoji verification has reached.
pub enum SasState {
    Created,
    Started,
    Accepted,
    /// The keys were exchanged; the emojis to compare, when the other side
    /// offers emoji comparison.
    KeysExchanged { emojis: Option<Vec<Emoji>> },
    Confirmed,
    Done,
    Cancelled,
}

/// What the emoji verification handler does on a state.
pub enum SasAction {
    /// Keep waiting for the next state.
    Wait,
    /// Only a non-emoji comparison is offered: cancel and stop.
    CancelUnsupported,
    /// Send this message to the admin's direct-message room, if there is one,
    /// and wait for the admin's reply.
    AskAdmin(String),
    /// Send this message to the admin's direct-message room, if there is one,
    /// and stop.
    AnnounceDone(String),
    /// Stop.
    Stop,
}

/// One emoji as the admin sees it: the symbol, a space, the description.
pub open spec fn emoji_text(e: Emoji) -> Seq<char> {
    e.symbol@ + " "@ + e.description@
}

/// The question sent to the admin for the emojis `emojis`.
pub open spec fn emoji_prompt_text(emojis: Seq<Emoji>) -> Seq<char> {
    "SAS verification \u{2014} do these emojis match on both devices?\n\n"@ + join_with(
        emojis.map_values(|e: Emoji| emoji_text(e)),
        "  "@,
    ) + "\n\nReply `yes` to confirm or `no` to cancel."@
}

/// The message sent to the admin once verification is done.
pub open spec fn done_text() -> Seq<char> {
    "Verification complete."@
}

/// The question that asks the admin whether `emojis` match on both devices.
pub fn emoji_prompt(emojis: &Vec<Emoji>) -> (r: String)
    ensures
        r@ == emoji_prompt_text(emojis@),
{
    let n = emojis.len();
    let mut parts: Vec<String> = Vec::new();
    for i in 0..n
        invariant
            n == emojis@.len(),
            parts@.len() == i,
            forall|k: int| 0 <= k < i ==> #[trigger] parts@[k]@ == emoji_text(emojis@[k]),
    {
        let mut p = String::new();
        push_str(&mut p, emojis[i].symbol.as_str());
        push_str(&mut p, " ");
        push_str(&mut p, emojis[i].description.as_str());
        parts.push(p);
    }
    let listed = join_strings(&parts, "  ");
    assert(parts@.map_values(|p: String| p@) =~= emojis@.map_values(|e: Emoji| emoji_text(e)));
    let mut out = String::new();
    push_str(&mut out, "SAS verification \u{2014} do these emojis match on both devices?\n\n");
    push_str(&mut out, listed.as_str());
    push_str(&mut out, "\n\nReply `yes` to confirm or `no` to cancel.");
    assert(out@ =~= emoji_prompt_text(emojis@));
    out
}

/// What to do when an emoji verification reaches `state`.
pub fn on_sas_state(state: &SasState) -> (r: SasAction)
    ensures
        match (*state, r) {
            (SasState::KeysExchanged { emojis: Some(es) }, SasAction::AskAdmin(m)) => m@
                == emoji_prompt_text(es@),
            (SasState::KeysExchanged { emojis: None }, SasAction::CancelUnsupported) => true,
            (SasState::Done, SasAction::AnnounceDone(m)) => m@ == done_text(),
            (SasState::Cancelled, SasAction::Stop) => true,
            (SasState::Created, SasAction::Wait) => true,
            (SasState::Started, SasAction::Wait) => true,
            (SasState::Accepted, SasAction::Wait) => true,
            (SasState::Confirmed, SasAction::Wait) => true,
            _ => false,
        },
{
    match state {
        SasState::KeysExchanged { emojis } => match emojis {
            Some(es) => SasAction::AskAdmin(emoji_prompt(es)),
            None => SasAction::CancelUnsupported,
        },
        SasState::Done => SasAction::AnnounceDone("Verification complete.".to_owned()),
        SasState::Cancelled => SasAction::Stop,
        _ => SasAction::Wait,
    }
}

/// What the admin's answer to the emoji question leads to.
#[derive(PartialEq, Eq, Structural, Debug)]
pub enum AdminDecision {
    /// Confirm the verification and keep watching it.
    Confirm,
    /// Cancel the verification and stop.
    Cancel,
}

/// The decision for the admin's answer: `Some(true)` confirms; a `no`, or no
/// answer at all (the question was dropped), cancels.
pub fn on_admin_reply(reply: Option<bool>) -> (r: AdminDecision)
    ensures
        r == (if reply == Some(true) {
            AdminDecision::Confirm
        } else {
            AdminDecision::Cancel
        }),
{
    match reply {
        Some(true) => AdminDecision::Confirm,
        _ => AdminDecision::Cancel,
    }
}

/// Whether a membership event concerns the bot itself (`state_key` is the
/// bot's user ID), so that the room it invites the bot to is joined.
pub fn should_auto_join(state_key: &str, own_user_id: &str) -> (r: bool)
    ensures
        r == (state_key@ == own_user_id@),
{
    str_eq(state_key, own_user_id)
}

/// The first wait, in seconds, after a failed join.
pub open spec fn first_join_delay() -> nat {
    2
}

/// Waiting stops once the next wait would exceed this many seconds.
pub open spec fn max_join_delay() -> nat {
    3600
}

/// Retrying to join a room with waits that double after each failure.
pub struct JoinBackoff {
    total_delay: u64,
}

impl View for JoinBackoff {
    type V = nat;

    /// The wait after the next failure.
    closed spec fn view(&self) -> nat {
        self.total_delay as nat
    }
}

/// The waits, in seconds, between failed joins when the next wait is `d`,
/// up to and including the last one before giving up.
pub open spec fn join_delays(d: nat) -> Seq<nat>
    decreases max_join_delay() + 1 - d,
{
    if d == 0 || 2 * d > max_join_delay() {
        seq![d]
    } else {
        seq![d] + join_delays(2 * d)
    }
}

impl JoinBackoff {
    #[verifier::type_invariant]
    spec fn wf(self) -> bool {
        1 <= self.total_delay <= max_join_delay()
    }

    /// The state before the first join attempt.
    pub fn new() -> (r: Self)
        ensures
            r@ == first_join_delay(),
    {
        JoinBackoff { total_delay: 2 }
    }

    /// After a failed join: how many seconds to wait, and the state for the
    /// next attempt, or `None` when the bot gives up after this wait.
    pub fn on_join_failed(self) -> (r: (u64, Option<JoinBackoff>))
        ensures
            r.0 == self@,
            r.1 is Some <==> 2 * self@ <= max_join_delay(),
            r.1 matches Some(next) ==> next@ == 2 * self@,
    {
        proof {
            use_type_invariant(&self);
        }
        let wait = self.total_delay;
        let next = wait * 2;
        if next > 3600 {
            (wait, None)
        } else {
            (wait, Some(JoinBackoff { total_delay: next }))
        }
    }
}

/// Law: from its first failure on, the bot waits 2, 4, 8, ... 2048 seconds
/// between attempts to join a room: eleven waits, 4094 seconds in all, then
/// it gives up.
pub proof fn law_join_retries_are_bounded()
    ensures
        join_delays(first_join_delay()) == seq![2nat, 4, 8, 16, 32, 64, 128, 256, 512, 1024, 2048],
{
    reveal_with_fuel(join_delays, 12);
    assert(join_delays(first_join_delay()) =~= seq![
        2nat,
        4,
        8,
        16,
        32,
        64,
        128,
        256,
        512,
        1024,
        2048,
    ]);
}

/// Law: each failed join waits the next delay of `join_delays`, and the
/// state after it continues the same sequence until the last wait, after
/// which no state is left.
pub proof fn law_backoff_follows_join_delays(d: nat)
    requires
        1 <= d <= max_join_delay(),
    ensures
        join_delays(d)[0] == d,
        2 * d <= max_join_delay() ==> join_delays(2 * d) == join_delays(d).drop_first(),
        2 * d > max_join_delay() ==> join_delays(d).len() == 1,
{
    if 2 * d <= max_join_delay() {
        assert(join_delays(d) == seq![d] + join_delays(2 * d));
        assert(join_delays(d).drop_first() =~= join_delays(2 * d));
    }
}

/// What the first sync leads to.
#[derive(PartialEq, Eq, Structural, Debug)]
pub enum SyncAction {
    /// Save the new sync token and start the sync loop.
    SaveTokenAndStart,
    /// Wait this many seconds and try again.
    RetryAfterSecs(u64),
}

/// The decision after the first sync: on success the token is saved and the
/// loop starts; a failure is retried after five seconds.
pub fn after_initial_sync(succeeded: bool) -> (r: SyncAction)
    ensures
        r == (if succeeded {
            SyncAction::SaveTokenAndStart
        } else {
            SyncAction::RetryAfterSecs(5)
        }),
{
    if succeeded {
        SyncAction::SaveTokenAndStart
    } else {
        SyncAction::RetryAfterSecs(5)
    }
}

/// Law: the emoji question lists every emoji, in order: one more emoji adds
/// two spaces (when there were emojis already) and that emoji to the
/// listing, before the closing request for a reply.
pub proof fn law_prompt_lists_every_emoji(emojis: Seq<Emoji>, e: Emoji)
    ensures
        ({
            let footer = "\n\nReply `yes` to confirm or `no` to cancel."@;
            let p = emoji_prompt_text(emojis);
            &&& footer.len() <= p.len()
            &&& p.subrange(p.len() - footer.len(), p.len() as int) == footer
            &&& emoji_prompt_text(emojis.push(e)) == p.subrange(0, p.len() - footer.len()) + (if emojis.len()
                > 0 {
                "  "@
            } else {
                Seq::empty()
            }) + emoji_text(e) + footer
        }),
{
    let parts = emojis.map_values(|x: Emoji| emoji_text(x));
    assert(emojis.push(e).map_values(|x: Emoji| emoji_text(x)) =~= parts.push(emoji_text(e)));
    law_join_appends_last(parts, "  "@, emoji_text(e));
    let footer = "\n\nReply `yes` to confirm or `no` to cancel."@;
    let head = "SAS verification \u{2014} do these emojis match on both devices?\n\n"@ + join_with(
        parts,
        "  "@,
    );
    assert(emoji_prompt_text(emojis) =~= head + footer);
    assert((head + footer).subrange(head.len() as int, (head + footer).len() as int) =~= footer);
    assert((head + footer).subrange(0, head.len() as int) =~= head);
    if emojis.len() > 0 {
        assert(emoji_prompt_text(emojis.push(e)) =~= head + "  "@ + emoji_text(e) + footer);
    } else {
        assert(emoji_prompt_text(emojis.push(e)) =~= head + Seq::<char>::empty() + emoji_text(e)
            + footer);
    }
}

} // verus!
