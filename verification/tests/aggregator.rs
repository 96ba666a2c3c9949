use caption_engine::aggregator::AudioAggregator;
use caption_engine::events::{
    DisconnectEvent, Effect, SpeakingStateEvent, StreamAudio, VoiceTick,
};
use caption_engine::identity::SpeakerIdentity;
use caption_engine::model::CaptionPipelineConfig;
use caption_engine::roster::VoiceRoster;

const GUILD: u64 = 900;
const CHANNEL: u64 = 50;
const SECOND: u64 = 1_000_000_000;

fn config(chunk_samples: usize) -> CaptionPipelineConfig {
    CaptionPipelineConfig {
        guild_id: GUILD,
        channel_id: CHANNEL,
        chunk_samples,
        sample_rate: 16_000,
        silence_flush: 3 * SECOND,
        publish_speaker: true,
    }
}

fn samples(from: i16, count: usize) -> Vec<i16> {
    (0..count).map(|i| from + i as i16).collect()
}

fn tick(ssrc: u32, pcm: Vec<i16>) -> VoiceTick {
    VoiceTick { speaking: vec![StreamAudio { ssrc, decoded_voice: Some(pcm) }], silent: vec![] }
}

fn silence(ssrc: u32) -> VoiceTick {
    VoiceTick { speaking: vec![], silent: vec![ssrc] }
}

fn chunks(effects: &[Effect]) -> Vec<(Option<u64>, Option<String>, Vec<i16>)> {
    let mut out = Vec::new();
    for effect in effects {
        if let Effect::Dispatch(chunk) = effect {
            let (id, label) = match &chunk.speaker {
                SpeakerIdentity::Known(user_id) => (Some(*user_id), None),
                SpeakerIdentity::Placeholder { label } => (None, Some(label.clone())),
            };
            out.push((id, label, chunk.pcm.clone()));
        }
    }
    out
}

#[test]
fn lone_pending_join_gets_the_chunk_and_the_remainder() {
    let mut roster = VoiceRoster::new(GUILD);
    roster.reset(CHANNEL, &[11], 0);
    let mut aggregator = AudioAggregator::new(config(4));

    let effects = aggregator.on_voice_tick(&mut roster, &tick(7, samples(0, 6)), SECOND);
    let sent = chunks(&effects);
    assert_eq!(sent, vec![(Some(11), None, vec![0, 1, 2, 3])]);
    assert_eq!(aggregator.buffered_len(7), 2);
    assert!(matches!(aggregator.buffered_speaker(7), Some(SpeakerIdentity::Known(11))));
    assert!(!roster.is_pending(11));
    assert_eq!(aggregator.lookup_user(7), Some(11));
    // The current speaker is published before the chunk goes out.
    assert!(matches!(effects[0], Effect::PublishSpeaker(Some(11))));
    assert!(matches!(effects[1], Effect::Dispatch(_)));
    assert_eq!(effects.len(), 2);
}

#[test]
fn two_chunk_sizes_in_one_tick_give_two_full_chunks() {
    let mut roster = VoiceRoster::new(GUILD);
    roster.reset(CHANNEL, &[11], 0);
    let mut aggregator = AudioAggregator::new(config(4));

    let effects = aggregator.on_voice_tick(&mut roster, &tick(7, samples(0, 8)), SECOND);
    let sent = chunks(&effects);
    assert_eq!(
        sent,
        vec![(Some(11), None, vec![0, 1, 2, 3]), (Some(11), None, vec![4, 5, 6, 7])]
    );
    assert_eq!(aggregator.buffered_len(7), 0);
    assert!(!roster.is_pending(11));
}

#[test]
fn announcement_retires_the_placeholder_and_asks_for_a_relabel() {
    let mut roster = VoiceRoster::new(GUILD);
    roster.reset(CHANNEL, &[1, 2], 0);
    let mut aggregator = AudioAggregator::new(config(4));

    let first = aggregator.on_voice_tick(&mut roster, &tick(7, samples(0, 4)), SECOND);
    assert_eq!(chunks(&first), vec![(None, Some("Speaker 7".to_string()), vec![0, 1, 2, 3])]);
    assert_eq!(aggregator.lookup_user(7), None);

    let announced = aggregator.on_speaking(
        &mut roster,
        &SpeakingStateEvent { ssrc: 7, user_id: Some(42), is_speaking: true },
        2 * SECOND,
    );
    assert_eq!(announced.len(), 2);
    match &announced[0] {
        Effect::Relabel { placeholder, user_id } => {
            assert_eq!(placeholder, "Speaker 7");
            assert_eq!(*user_id, 42);
        }
        other => panic!("expected a relabel, got {:?}", other),
    }
    assert!(matches!(announced[1], Effect::PublishSpeaker(Some(42))));
    assert_eq!(aggregator.lookup_user(7), Some(42));

    let later = aggregator.on_voice_tick(&mut roster, &tick(7, samples(10, 4)), 3 * SECOND);
    assert_eq!(chunks(&later), vec![(Some(42), None, vec![10, 11, 12, 13])]);

    // A second announcement finds no label to retire.
    let again = aggregator.on_speaking(
        &mut roster,
        &SpeakingStateEvent { ssrc: 7, user_id: Some(42), is_speaking: true },
        4 * SECOND,
    );
    assert!(again.is_empty());
}

#[test]
fn disconnect_flushes_and_unmaps_every_stream_of_the_user() {
    let mut roster = VoiceRoster::new(GUILD);
    let mut aggregator = AudioAggregator::new(config(4));
    for ssrc in [7u32, 9u32] {
        let effects = aggregator.on_speaking(
            &mut roster,
            &SpeakingStateEvent { ssrc, user_id: Some(42), is_speaking: true },
            SECOND,
        );
        assert!(effects.len() <= 1);
    }
    let _ = aggregator.on_speaking(
        &mut roster,
        &SpeakingStateEvent { ssrc: 8, user_id: Some(43), is_speaking: false },
        SECOND,
    );
    let _ = aggregator.on_voice_tick(&mut roster, &tick(7, samples(0, 3)), SECOND);
    let _ = aggregator.on_voice_tick(&mut roster, &tick(9, samples(100, 2)), SECOND);
    let _ = aggregator.on_voice_tick(&mut roster, &tick(8, samples(50, 1)), SECOND);

    let outcome = aggregator.on_disconnect(&mut roster, &DisconnectEvent { user_id: 42 }, 2 * SECOND);
    let mut streams = outcome.streams.clone();
    streams.sort();
    assert_eq!(streams, vec![7, 9]);
    let mut sent = chunks(&outcome.effects);
    sent.sort();
    assert_eq!(
        sent,
        vec![(Some(42), None, vec![0, 1, 2]), (Some(42), None, vec![100, 101])]
    );
    assert_eq!(aggregator.lookup_user(7), None);
    assert_eq!(aggregator.lookup_user(9), None);
    assert_eq!(aggregator.lookup_user(8), Some(43));
    assert_eq!(aggregator.buffered_len(7), 0);
    assert_eq!(aggregator.buffered_len(9), 0);
    assert_eq!(aggregator.buffered_len(8), 1);
    assert_eq!(aggregator.current_speaker(), None);
    assert!(aggregator.buffered_speaker(7).is_none());
}

#[test]
fn silence_flushes_the_partial_chunk_exactly_once() {
    let mut roster = VoiceRoster::new(GUILD);
    roster.reset(CHANNEL, &[11], 0);
    let mut aggregator = AudioAggregator::new(config(4));
    let _ = aggregator.on_voice_tick(&mut roster, &tick(7, samples(0, 3)), SECOND);

    // Not yet silent for longer than the threshold.
    let early = aggregator.on_voice_tick(&mut roster, &silence(7), 4 * SECOND);
    assert!(early.is_empty());
    assert_eq!(aggregator.buffered_len(7), 3);

    let flushed = aggregator.on_voice_tick(&mut roster, &silence(7), 4 * SECOND + 1);
    assert_eq!(chunks(&flushed), vec![(Some(11), None, vec![0, 1, 2])]);
    assert_eq!(aggregator.buffered_len(7), 0);

    let again = aggregator.on_voice_tick(&mut roster, &silence(7), 60 * SECOND);
    assert!(again.is_empty());

    // New samples arrive: the stream can be flushed again.
    let _ = aggregator.on_voice_tick(&mut roster, &tick(7, samples(9, 1)), 61 * SECOND);
    let later = aggregator.on_voice_tick(&mut roster, &silence(7), 70 * SECOND);
    assert_eq!(chunks(&later), vec![(Some(11), None, vec![9])]);
}

#[test]
fn ambiguity_gives_a_placeholder_and_keeps_the_pending_joins() {
    let mut roster = VoiceRoster::new(GUILD);
    roster.reset(CHANNEL, &[1, 2], 0);
    let mut aggregator = AudioAggregator::new(config(2));
    let identity = aggregator.resolve_identity(&mut roster, 5, None);
    match identity {
        SpeakerIdentity::Placeholder { label } => assert_eq!(label, "Speaker 5"),
        other => panic!("expected a placeholder, got {:?}", other),
    }
    assert_eq!(roster.pending_count(), 2);
    assert_eq!(aggregator.lookup_user(5), None);
    // The label is reused for the same stream.
    assert_eq!(aggregator.placeholder_label(5), "Speaker 5");
}

#[test]
fn known_identity_is_not_overridden_by_a_guess() {
    let mut roster = VoiceRoster::new(GUILD);
    roster.reset(CHANNEL, &[1], 0);
    let mut aggregator = AudioAggregator::new(config(2));
    let _ = aggregator.on_speaking(
        &mut roster,
        &SpeakingStateEvent { ssrc: 5, user_id: Some(77), is_speaking: true },
        0,
    );
    let identity = aggregator.resolve_identity(
        &mut roster,
        5,
        Some(SpeakerIdentity::Placeholder { label: "Speaker 5".to_string() }),
    );
    assert!(matches!(identity, SpeakerIdentity::Known(77)));
    // The roster was not asked: the pending join is still there.
    assert!(roster.is_pending(1));
}

#[test]
fn samples_come_out_in_order_over_many_ticks() {
    let mut roster = VoiceRoster::new(GUILD);
    roster.reset(CHANNEL, &[11], 0);
    let mut aggregator = AudioAggregator::new(config(5));
    let mut received: Vec<i16> = Vec::new();
    let mut sent: Vec<i16> = Vec::new();
    let mut next: i16 = 0;
    for (round, count) in [3usize, 1, 7, 0, 12, 4].iter().enumerate() {
        let pcm = samples(next, *count);
        next += *count as i16;
        received.extend_from_slice(&pcm);
        let effects = aggregator.on_voice_tick(&mut roster, &tick(3, pcm), round as u64);
        for (_, _, chunk) in chunks(&effects) {
            assert_eq!(chunk.len(), 5);
            sent.extend_from_slice(&chunk);
        }
    }
    assert_eq!(aggregator.buffered_len(3), received.len() % 5);
    let mut effects = Vec::new();
    aggregator.flush_stream(&mut roster, 3, 100, &mut effects);
    for (_, _, chunk) in chunks(&effects) {
        assert!(chunk.len() < 5);
        sent.extend_from_slice(&chunk);
    }
    assert_eq!(sent, received);
}

#[test]
fn empty_audio_resolves_nothing() {
    let mut roster = VoiceRoster::new(GUILD);
    roster.reset(CHANNEL, &[11], 0);
    let mut aggregator = AudioAggregator::new(config(4));
    let effects = aggregator.on_voice_tick(&mut roster, &tick(7, Vec::new()), SECOND);
    assert!(effects.is_empty());
    assert!(roster.is_pending(11));
    assert_eq!(aggregator.lookup_user(7), None);
    let none = VoiceTick {
        speaking: vec![StreamAudio { ssrc: 7, decoded_voice: None }],
        silent: vec![],
    };
    assert!(aggregator.on_voice_tick(&mut roster, &none, SECOND).is_empty());
}

#[test]
fn microphone_off_flushes_and_clears_the_current_speaker() {
    let mut roster = VoiceRoster::new(GUILD);
    let mut aggregator = AudioAggregator::new(config(4));
    let on = aggregator.on_speaking(
        &mut roster,
        &SpeakingStateEvent { ssrc: 7, user_id: Some(42), is_speaking: true },
        0,
    );
    assert!(matches!(on[..], [Effect::PublishSpeaker(Some(42))]));
    assert_eq!(aggregator.current_speaker(), Some(42));
    let _ = aggregator.on_voice_tick(&mut roster, &tick(7, samples(0, 3)), SECOND);
    let off = aggregator.on_speaking(
        &mut roster,
        &SpeakingStateEvent { ssrc: 7, user_id: None, is_speaking: false },
        2 * SECOND,
    );
    assert_eq!(chunks(&off), vec![(Some(42), None, vec![0, 1, 2])]);
    assert!(matches!(off.last(), Some(Effect::PublishSpeaker(None))));
    assert_eq!(aggregator.current_speaker(), None);
    assert!(aggregator.buffered_speaker(7).is_none());
}

#[test]
fn nothing_is_published_when_nobody_listens() {
    let mut roster = VoiceRoster::new(GUILD);
    let mut quiet = config(2);
    quiet.publish_speaker = false;
    let mut aggregator = AudioAggregator::new(quiet);
    let on = aggregator.on_speaking(
        &mut roster,
        &SpeakingStateEvent { ssrc: 7, user_id: Some(42), is_speaking: true },
        0,
    );
    assert!(on.is_empty());
    let effects = aggregator.on_voice_tick(&mut roster, &tick(7, samples(0, 2)), SECOND);
    assert_eq!(effects.len(), 1);
    assert_eq!(aggregator.current_speaker(), None);
}

#[test]
fn job_carries_the_label_or_the_name() {
    let mut roster = VoiceRoster::new(GUILD);
    roster.reset(CHANNEL, &[1, 2], 0);
    let mut aggregator = AudioAggregator::new(config(2));
    let mut effects = aggregator.on_voice_tick(&mut roster, &tick(7, samples(0, 2)), SECOND);
    let chunk = match effects.pop() {
        Some(Effect::Dispatch(chunk)) => chunk,
        other => panic!("expected a chunk, got {:?}", other),
    };
    let job = chunk.into_job(Some("ignored".to_string()), 1234);
    assert_eq!(job.speaker_id, None);
    assert_eq!(job.speaker_name, "Speaker 7");
    assert_eq!(job.pcm, vec![0, 1]);
    assert_eq!(job.sample_rate, 16_000);
    assert_eq!(job.channel_id, CHANNEL);
    assert_eq!(job.guild_id, GUILD);
    assert_eq!(job.started_at, 1234);

    let _ = aggregator.on_speaking(
        &mut roster,
        &SpeakingStateEvent { ssrc: 7, user_id: Some(42), is_speaking: true },
        SECOND,
    );
    let mut effects = aggregator.on_voice_tick(&mut roster, &tick(7, samples(0, 2)), SECOND);
    let chunk = match effects.pop() {
        Some(Effect::Dispatch(chunk)) => chunk,
        other => panic!("expected a chunk, got {:?}", other),
    };
    let unnamed = chunk.into_job(None, 5);
    assert_eq!(unnamed.speaker_id, Some(42));
    assert_eq!(unnamed.speaker_name, "User 42");
}

#[test]
fn end_of_call_flushes_every_live_buffer() {
    let mut roster = VoiceRoster::new(GUILD);
    let mut aggregator = AudioAggregator::new(config(4));
    for (ssrc, user) in [(1u32, 10u64), (2, 20), (3, 30)] {
        let _ = aggregator.on_speaking(
            &mut roster,
            &SpeakingStateEvent { ssrc, user_id: Some(user), is_speaking: true },
            0,
        );
    }
    let _ = aggregator.on_voice_tick(&mut roster, &tick(1, samples(0, 3)), SECOND);
    let _ = aggregator.on_voice_tick(&mut roster, &tick(2, samples(10, 4)), SECOND);
    let _ = aggregator.on_voice_tick(&mut roster, &tick(3, samples(20, 5)), SECOND);

    let outcome = aggregator.flush_all(&mut roster, 2 * SECOND);
    let mut streams = outcome.streams.clone();
    streams.sort();
    // The buffer of stream 2 was drained to nothing and is still closed.
    assert_eq!(streams, vec![1, 2, 3]);
    let mut sent = chunks(&outcome.effects);
    sent.sort();
    assert_eq!(sent, vec![(Some(10), None, vec![0, 1, 2]), (Some(30), None, vec![24])]);
    for ssrc in [1u32, 2, 3] {
        assert_eq!(aggregator.buffered_len(ssrc), 0);
        assert!(aggregator.buffered_speaker(ssrc).is_none());
    }
    let again = aggregator.flush_all(&mut roster, 3 * SECOND);
    assert!(again.streams.is_empty());
    assert!(again.effects.is_empty());
}

#[test]
fn a_chunk_of_nothing_but_zeros_is_dropped() {
    let mut roster = VoiceRoster::new(GUILD);
    let mut aggregator = AudioAggregator::new(config(4));
    let _ = aggregator.on_speaking(
        &mut roster,
        &SpeakingStateEvent { ssrc: 7, user_id: Some(42), is_speaking: false },
        0,
    );
    // The first chunk is silence, the second is not, the rest stays.
    let pcm = vec![0, 0, 0, 0, 0, 5, 0, 0, 0, 0];
    let effects = aggregator.on_voice_tick(&mut roster, &tick(7, pcm), SECOND);
    assert_eq!(chunks(&effects), vec![(Some(42), None, vec![0, 5, 0, 0])]);
    assert_eq!(aggregator.buffered_len(7), 2);

    // What is left is silence too: the flush hands nothing out.
    let mut flushed = Vec::new();
    aggregator.flush_stream(&mut roster, 7, 2 * SECOND, &mut flushed);
    assert!(flushed.is_empty());
    assert_eq!(aggregator.buffered_len(7), 0);
    assert!(aggregator.buffered_speaker(7).is_none());
}

#[test]
fn a_dropped_chunk_changes_nothing() {
    let mut roster = VoiceRoster::new(GUILD);
    roster.note_join(CHANNEL, 42, 0);
    let mut aggregator = AudioAggregator::new(config(2));
    let mut effects = Vec::new();
    aggregator.dispatch_chunk(
        &mut roster,
        SpeakerIdentity::Known(42),
        vec![0, 0, 0],
        SECOND,
        &mut effects,
    );
    assert!(effects.is_empty());
    assert_eq!(aggregator.current_speaker(), None);
    assert!(roster.is_pending(42));
    assert_eq!(roster.participant(42).expect("a participant").last_spoke_at, None);

    aggregator.dispatch_chunk(&mut roster, SpeakerIdentity::Known(42), Vec::new(), SECOND, &mut effects);
    assert!(effects.is_empty());

    aggregator.dispatch_chunk(&mut roster, SpeakerIdentity::Known(42), vec![0, -1], SECOND, &mut effects);
    assert_eq!(effects.len(), 2);
    assert!(!roster.is_pending(42));
    assert_eq!(roster.participant(42).expect("a participant").last_spoke_at, Some(SECOND));
}

#[test]
fn an_announced_user_stops_being_pending() {
    let mut roster = VoiceRoster::new(GUILD);
    roster.reset(CHANNEL, &[1, 2], 0);
    let mut aggregator = AudioAggregator::new(config(4));
    let _ = aggregator.on_speaking(
        &mut roster,
        &SpeakingStateEvent { ssrc: 7, user_id: Some(1), is_speaking: true },
        SECOND,
    );
    assert!(!roster.is_pending(1));
    assert!(roster.is_pending(2));
    // The record of the announced user is as it was.
    let record = roster.participant(1).expect("a participant");
    assert_eq!(record.last_spoke_at, None);
    assert_eq!(record.channel_id, CHANNEL);

    // An unmapped stream is now given to the one user who is still pending,
    // and never to the user who was announced.
    let effects = aggregator.on_voice_tick(&mut roster, &tick(9, samples(1, 4)), 2 * SECOND);
    assert_eq!(chunks(&effects), vec![(Some(2), None, vec![1, 2, 3, 4])]);
    assert_eq!(aggregator.lookup_user(9), Some(2));
    assert_eq!(roster.pending_count(), 0);
}

#[test]
fn a_user_with_a_live_stream_does_not_become_pending_again() {
    let mut roster = VoiceRoster::new(GUILD);
    let mut aggregator = AudioAggregator::new(config(4));
    let _ = aggregator.on_speaking(
        &mut roster,
        &SpeakingStateEvent { ssrc: 7, user_id: Some(1), is_speaking: true },
        0,
    );
    // The user comes into the call's channel while their stream is known.
    aggregator.on_voice_state_update(&mut roster, 99, 1, None, Some(CHANNEL), SECOND);
    assert_eq!(roster.participant_count(), 1);
    assert!(!roster.is_pending(1));
    // Somebody without a stream becomes pending.
    aggregator.on_voice_state_update(&mut roster, 99, 2, Some(60), Some(CHANNEL), SECOND);
    assert!(roster.is_pending(2));
    assert_eq!(roster.participant_count(), 2);
    // The bot's own moves are ignored, and a leave takes the user out.
    aggregator.on_voice_state_update(&mut roster, 99, 99, None, Some(CHANNEL), SECOND);
    assert_eq!(roster.participant_count(), 2);
    aggregator.on_voice_state_update(&mut roster, 99, 2, Some(CHANNEL), None, 2 * SECOND);
    assert_eq!(roster.participant_count(), 1);
    assert!(!roster.is_pending(2));
}
