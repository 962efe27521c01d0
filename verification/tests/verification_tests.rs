use matrix_osu_bot::verification::may_request_verification;
use matrix_osu_bot::verification::{
    after_initial_sync, emoji_prompt, on_admin_reply, on_request_state, on_sas_state,
    should_auto_join, AdminDecision, Emoji, JoinBackoff, RequestAction, RequestState, SasAction,
    SasState, SyncAction,
};

fn emoji(symbol: &str, description: &str) -> Emoji {
    Emoji { symbol: symbol.to_string(), description: description.to_string() }
}

#[test]
fn request_states() {
    assert_eq!(on_request_state(&RequestState::Created), RequestAction::Wait);
    assert_eq!(on_request_state(&RequestState::Ready), RequestAction::Wait);
    assert_eq!(on_request_state(&RequestState::Transitioned { sas: true }), RequestAction::StartSas);
    assert_eq!(on_request_state(&RequestState::Transitioned { sas: false }), RequestAction::Wait);
    assert_eq!(on_request_state(&RequestState::Done), RequestAction::Stop);
    assert_eq!(on_request_state(&RequestState::Cancelled), RequestAction::Stop);
}

#[test]
fn emoji_question() {
    let es = vec![emoji("🐶", "Dog"), emoji("🔑", "Key")];
    assert_eq!(
        emoji_prompt(&es),
        "SAS verification \u{2014} do these emojis match on both devices?\n\n🐶 Dog  🔑 Key\n\nReply `yes` to confirm or `no` to cancel."
    );
}

#[test]
fn sas_states() {
    match on_sas_state(&SasState::KeysExchanged { emojis: Some(vec![emoji("A", "a")]) }) {
        SasAction::AskAdmin(m) => assert!(m.contains("\n\nA a\n\n")),
        _ => panic!(),
    }
    assert!(matches!(on_sas_state(&SasState::KeysExchanged { emojis: None }), SasAction::CancelUnsupported));
    match on_sas_state(&SasState::Done) {
        SasAction::AnnounceDone(m) => assert_eq!(m, "Verification complete."),
        _ => panic!(),
    }
    assert!(matches!(on_sas_state(&SasState::Cancelled), SasAction::Stop));
    assert!(matches!(on_sas_state(&SasState::Accepted), SasAction::Wait));
    assert!(matches!(on_sas_state(&SasState::Confirmed), SasAction::Wait));
}

#[test]
fn admin_replies() {
    assert_eq!(on_admin_reply(Some(true)), AdminDecision::Confirm);
    assert_eq!(on_admin_reply(Some(false)), AdminDecision::Cancel);
    assert_eq!(on_admin_reply(None), AdminDecision::Cancel);
}

#[test]
fn join_retries_double_then_give_up() {
    let mut state = Some(JoinBackoff::new());
    let mut waits = Vec::new();
    while let Some(s) = state {
        let (wait, next) = s.on_join_failed();
        waits.push(wait);
        state = next;
    }
    assert_eq!(waits, vec![2, 4, 8, 16, 32, 64, 128, 256, 512, 1024, 2048]);
    assert_eq!(waits.iter().sum::<u64>(), 4094);
}

#[test]
fn auto_join_only_own_invites() {
    assert!(should_auto_join("@bot:x", "@bot:x"));
    assert!(!should_auto_join("@someone:x", "@bot:x"));
}

#[test]
fn initial_sync() {
    assert_eq!(after_initial_sync(true), SyncAction::SaveTokenAndStart);
    assert_eq!(after_initial_sync(false), SyncAction::RetryAfterSecs(5));
}

#[test]
fn only_the_admin_may_request_verification() {
    assert!(may_request_verification("@you:matrix.org", "@you:matrix.org"));
    assert!(!may_request_verification("@eve:matrix.org", "@you:matrix.org"));
}
