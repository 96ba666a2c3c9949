use caption_engine::aggregator::AudioAggregator;
use caption_engine::events::{
    DisconnectEvent, Effect, SpeakingStateEvent, StreamAudio, TransportEvent, VoiceTick,
};
use caption_engine::model::CaptionPipelineConfig;
use caption_engine::roster::{classify_move, occupants_of, MembershipChange, VoiceRoster, VoiceState};

fn state(user_id: u64, channel_id: Option<u64>) -> VoiceState {
    VoiceState { user_id, channel_id }
}

#[test]
fn occupants_leave_out_the_bot_and_other_channels() {
    let states = [
        state(1, Some(50)),
        state(2, Some(60)),
        state(99, Some(50)),
        state(3, None),
        state(4, Some(50)),
    ];
    assert_eq!(occupants_of(&states, 99, 50), vec![1, 4]);
    assert_eq!(occupants_of(&states, 99, 70), Vec::<u64>::new());
    assert_eq!(occupants_of(&[], 99, 50), Vec::<u64>::new());
}

#[test]
fn prepared_roster_holds_the_occupants() {
    let mut roster = VoiceRoster::new(5);
    roster.note_join(40, 8, 0);
    roster.prepare_roster(&[state(1, Some(50)), state(99, Some(50)), state(2, Some(50))], 99, 50, 1);
    assert_eq!(roster.participant_count(), 2);
    assert!(roster.is_pending(1));
    assert!(roster.is_pending(2));
    assert!(!roster.is_pending(8));
    assert!(!roster.is_pending(99));
}

#[test]
fn moves_are_classified_against_the_call_channel() {
    assert_eq!(classify_move(50, None, Some(50)), MembershipChange::Joined);
    assert_eq!(classify_move(50, Some(60), Some(50)), MembershipChange::Joined);
    assert_eq!(classify_move(50, Some(50), None), MembershipChange::Left);
    assert_eq!(classify_move(50, Some(50), Some(60)), MembershipChange::Left);
    assert_eq!(classify_move(50, Some(50), Some(50)), MembershipChange::Unchanged);
    assert_eq!(classify_move(50, Some(60), Some(70)), MembershipChange::Unchanged);
    assert_eq!(classify_move(50, None, None), MembershipChange::Unchanged);
}

#[test]
fn voice_state_updates_drive_the_roster() {
    let mut roster = VoiceRoster::new(5);
    roster.handle_voice_state_update(None, 99, 1, None, Some(50), 0);
    assert_eq!(roster.participant_count(), 0);
    roster.handle_voice_state_update(Some(50), 99, 99, None, Some(50), 0);
    assert_eq!(roster.participant_count(), 0);
    roster.handle_voice_state_update(Some(50), 99, 1, None, Some(50), 0);
    assert_eq!(roster.participant_count(), 1);
    assert!(roster.is_pending(1));
    roster.handle_voice_state_update(Some(50), 99, 1, Some(50), Some(50), 1);
    assert_eq!(roster.pending_count(), 1);
    roster.handle_voice_state_update(Some(50), 99, 1, Some(50), Some(60), 2);
    assert_eq!(roster.participant_count(), 0);
    assert!(!roster.is_pending(1));
}

#[test]
fn events_are_routed_to_their_handlers() {
    let mut roster = VoiceRoster::new(5);
    let mut aggregator = AudioAggregator::new(CaptionPipelineConfig {
        guild_id: 5,
        channel_id: 50,
        chunk_samples: 2,
        sample_rate: 48_000,
        silence_flush: 10,
        publish_speaker: true,
    });
    let spoke = aggregator.act(
        &mut roster,
        &TransportEvent::Speaking(SpeakingStateEvent {
            ssrc: 3,
            user_id: Some(42),
            is_speaking: true,
        }),
        0,
    );
    assert!(matches!(spoke[..], [Effect::PublishSpeaker(Some(42))]));
    let ticked = aggregator.act(
        &mut roster,
        &TransportEvent::Tick(VoiceTick {
            speaking: vec![StreamAudio { ssrc: 3, decoded_voice: Some(vec![1, 2, 3]) }],
            silent: vec![],
        }),
        1,
    );
    assert!(matches!(ticked[..], [Effect::Dispatch(_)]));
    assert!(aggregator.act(&mut roster, &TransportEvent::Other, 2).is_empty());
    let left = aggregator.act(
        &mut roster,
        &TransportEvent::Disconnect(DisconnectEvent { user_id: 42 }),
        3,
    );
    assert!(matches!(left[..], [Effect::Dispatch(_), Effect::PublishSpeaker(None)]));
    assert_eq!(aggregator.lookup_user(3), None);
}
