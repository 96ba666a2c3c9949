use caption_engine::roster::VoiceRoster;

#[test]
fn single_pending_join_is_guessed_and_taken() {
    let mut roster = VoiceRoster::new(1);
    roster.reset(50, &[7], 0);
    assert_eq!(roster.participant_count(), 1);
    assert!(roster.is_pending(7));
    assert_eq!(roster.guess_speaker(50), Some(7));
    assert!(!roster.is_pending(7));
    // The second guess falls through to the only participant of the channel.
    assert_eq!(roster.guess_speaker(50), Some(7));
    assert_eq!(roster.pending_count(), 0);
}

#[test]
fn two_pending_joins_are_no_guess() {
    let mut roster = VoiceRoster::new(1);
    roster.reset(50, &[7, 8], 0);
    assert_eq!(roster.guess_speaker(50), None);
    assert_eq!(roster.pending_count(), 2);
    assert_eq!(roster.participant_count(), 2);
}

#[test]
fn one_pending_among_several_participants_is_the_guess() {
    let mut roster = VoiceRoster::new(1);
    roster.reset(50, &[7, 8], 0);
    roster.note_spoke(7, 5);
    assert!(!roster.is_pending(7));
    assert_eq!(roster.guess_speaker(50), Some(8));
    // Nobody is pending now and two users are in the channel.
    assert_eq!(roster.guess_speaker(50), None);
}

#[test]
fn guess_looks_only_at_the_channel_asked_about() {
    let mut roster = VoiceRoster::new(1);
    roster.note_join(50, 7, 0);
    roster.note_join(60, 8, 0);
    assert_eq!(roster.guess_speaker(70), None);
    assert_eq!(roster.guess_speaker(60), Some(8));
    assert!(roster.is_pending(7));
    assert!(!roster.is_pending(8));
}

#[test]
fn leave_removes_participant_and_pending_join() {
    let mut roster = VoiceRoster::new(1);
    roster.note_join(50, 7, 0);
    roster.note_join(50, 8, 1);
    roster.note_leave(7);
    assert_eq!(roster.participant_count(), 1);
    assert!(!roster.is_pending(7));
    assert_eq!(roster.guess_speaker(50), Some(8));
}

#[test]
fn rejoining_does_not_make_a_user_pending_twice() {
    let mut roster = VoiceRoster::new(1);
    roster.note_join(50, 7, 0);
    roster.note_join(50, 7, 1);
    assert_eq!(roster.pending_count(), 1);
    assert_eq!(roster.participant_count(), 1);
}

#[test]
fn reset_forgets_the_previous_call() {
    let mut roster = VoiceRoster::new(9);
    roster.reset(50, &[1, 2, 3], 0);
    roster.reset(60, &[4], 10);
    assert_eq!(roster.guild_id(), 9);
    assert_eq!(roster.participant_count(), 1);
    assert_eq!(roster.pending_count(), 1);
    assert_eq!(roster.guess_speaker(50), None);
    assert_eq!(roster.guess_speaker(60), Some(4));
}

#[test]
fn reset_takes_a_repeated_occupant_once() {
    let mut roster = VoiceRoster::new(9);
    roster.reset(50, &[1, 1], 0);
    assert_eq!(roster.participant_count(), 1);
    assert_eq!(roster.pending_count(), 1);
}

#[test]
fn clear_leaves_nobody() {
    let mut roster = VoiceRoster::new(9);
    roster.reset(50, &[1, 2, 3], 0);
    roster.clear();
    assert_eq!(roster.participant_count(), 0);
    assert_eq!(roster.pending_count(), 0);
    assert_eq!(roster.guess_speaker(50), None);
}

#[test]
fn spoke_for_an_unknown_user_changes_nothing() {
    let mut roster = VoiceRoster::new(9);
    roster.reset(50, &[1], 0);
    roster.note_spoke(2, 3);
    assert_eq!(roster.participant_count(), 1);
    assert!(roster.is_pending(1));
}

#[test]
fn records_keep_channel_join_time_and_last_speech() {
    let mut roster = VoiceRoster::new(9);
    roster.note_join(50, 1, 10);
    let joined = roster.participant(1).expect("a participant");
    assert_eq!(joined.channel_id, 50);
    assert_eq!(joined.joined_at, 10);
    assert_eq!(joined.last_spoke_at, None);
    roster.note_spoke(1, 25);
    let heard = roster.participant(1).expect("a participant");
    assert_eq!(heard.channel_id, 50);
    assert_eq!(heard.joined_at, 10);
    assert_eq!(heard.last_spoke_at, Some(25));
    assert_eq!(roster.participant(2), None);
    roster.note_leave(1);
    assert_eq!(roster.participant(1), None);
}

#[test]
fn confirmation_takes_a_user_off_the_queue_and_leaves_the_record() {
    let mut roster = VoiceRoster::new(9);
    roster.reset(50, &[1, 2], 3);
    roster.note_confirmed(1);
    assert!(!roster.is_pending(1));
    assert!(roster.is_pending(2));
    assert_eq!(roster.participant_count(), 2);
    assert_eq!(roster.participant(1).expect("a participant").last_spoke_at, None);
    roster.note_confirmed(7);
    assert_eq!(roster.pending_count(), 1);
}
