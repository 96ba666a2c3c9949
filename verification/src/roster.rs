//! The voice roster: who is in the tracked voice channel, and who joined it
//! without having been heard yet.
//!
//! The roster answers one question for the audio path: when a stream has no
//! announced owner, is there exactly one plausible speaker? It guesses only
//! when there is, and declines otherwise.

use crate::shared_map::{
    lists_all, participant_entries, participant_table_clear, participant_table_insert,
    participant_table_len, participant_table_new, participant_table_pairs,
    participant_table_remove,
};
use dashmap::DashMap;
use std::collections::VecDeque;
use vstd::prelude::*;

verus! {

/// What the roster keeps about a user who is in a voice channel. Times are
/// readings of the caller's monotonic clock, in nanoseconds.
#[derive(Clone, Copy, Debug, PartialEq, Eq, Structural)]
pub struct ParticipantRecord {
    pub channel_id: u64,
    pub joined_at: u64,
    pub last_spoke_at: Option<u64>,
}

/// A user who joined a channel and has not yet been taken for the source of
/// any audio.
#[derive(Clone, Copy, Debug, PartialEq, Eq, Structural)]
pub struct PendingJoin {
    pub user_id: u64,
    pub channel_id: u64,
    pub joined_at: u64,
}

/// The roster as a mathematical value: the participation table and the
/// pending joins, oldest first.
pub struct RosterView {
    pub guild_id: u64,
    pub participants: Map<u64, ParticipantRecord>,
    pub pending: Seq<PendingJoin>,
}

/// Membership and pending joins of one guild's tracked call.
pub struct VoiceRoster {
    guild_id: u64,
    participants: DashMap<u64, ParticipantRecord>,
    pending: VecDeque<PendingJoin>,
}

// ---------------------------------------------------------------------
// The model
// ---------------------------------------------------------------------
/// The pending joins of everybody but `user_id`, in their order.
pub open spec fn others_than(pending: Seq<PendingJoin>, user_id: u64) -> Seq<PendingJoin> {
    pending.filter(|entry: PendingJoin| entry.user_id != user_id)
}

/// The pending joins into `channel_id`, in their order.
pub open spec fn waiting_in(pending: Seq<PendingJoin>, channel_id: u64) -> Seq<PendingJoin> {
    pending.filter(|entry: PendingJoin| entry.channel_id == channel_id)
}

/// `user_id` is tracked as being in `channel_id`.
pub open spec fn is_member(
    participants: Map<u64, ParticipantRecord>,
    channel_id: u64,
    user_id: u64,
) -> bool {
    participants.contains_key(user_id) && participants[user_id].channel_id == channel_id
}

/// `user_id` is in `channel_id`, and nobody else is.
pub open spec fn is_sole_member(
    participants: Map<u64, ParticipantRecord>,
    channel_id: u64,
    user_id: u64,
) -> bool {
    &&& is_member(participants, channel_id, user_id)
    &&& forall|other: u64| #[trigger]
        is_member(participants, channel_id, other) ==> other == user_id
}

/// The one user tracked in `channel_id`, if there is exactly one.
pub open spec fn sole_member(participants: Map<u64, ParticipantRecord>, channel_id: u64) -> Option<
    u64,
> {
    if exists|user_id: u64| is_sole_member(participants, channel_id, user_id) {
        Some(choose|user_id: u64| is_sole_member(participants, channel_id, user_id))
    } else {
        None
    }
}

/// No user is pending twice.
pub open spec fn distinct_users(pending: Seq<PendingJoin>) -> bool {
    forall|i: int, j: int|
        0 <= i < j < pending.len() ==> (#[trigger] pending[i]).user_id != (
        #[trigger] pending[j]).user_id
}

/// The roster's invariant: the table is finite, nobody is pending twice, and
/// whoever is pending is a participant of the channel they are pending for.
pub open spec fn consistent(roster: RosterView) -> bool {
    &&& roster.participants.dom().finite()
    &&& distinct_users(roster.pending)
    &&& forall|i: int|
        0 <= i < roster.pending.len() ==> is_member(
            roster.participants,
            (#[trigger] roster.pending[i]).channel_id,
            roster.pending[i].user_id,
        )
}

/// A roster that tracks nobody.
pub open spec fn vacant(guild_id: u64) -> RosterView {
    RosterView { guild_id, participants: Map::empty(), pending: Seq::empty() }
}

/// The roster after `user_id` joined `channel_id`: the user is a participant
/// of that channel and the newest pending join.
pub open spec fn joined(roster: RosterView, channel_id: u64, user_id: u64, now: u64) -> RosterView {
    RosterView {
        guild_id: roster.guild_id,
        participants: roster.participants.insert(
            user_id,
            ParticipantRecord { channel_id, joined_at: now, last_spoke_at: None },
        ),
        pending: others_than(roster.pending, user_id).push(
            PendingJoin { user_id, channel_id, joined_at: now },
        ),
    }
}

/// The roster after `user_id` left: neither a participant nor pending.
pub open spec fn departed(roster: RosterView, user_id: u64) -> RosterView {
    RosterView {
        guild_id: roster.guild_id,
        participants: roster.participants.remove(user_id),
        pending: others_than(roster.pending, user_id),
    }
}

/// The roster after speech was attributed to `user_id`: no longer pending,
/// and, where the user is a participant, the time is noted.
pub open spec fn heard(roster: RosterView, user_id: u64, now: u64) -> RosterView {
    RosterView {
        guild_id: roster.guild_id,
        participants: if roster.participants.contains_key(user_id) {
            roster.participants.insert(
                user_id,
                ParticipantRecord {
                    channel_id: roster.participants[user_id].channel_id,
                    joined_at: roster.participants[user_id].joined_at,
                    last_spoke_at: Some(now),
                },
            )
        } else {
            roster.participants
        },
        pending: others_than(roster.pending, user_id),
    }
}

/// The roster after `user_id` was confirmed as the owner of a stream: no
/// longer pending. The participation table is as it was.
pub open spec fn confirmed(roster: RosterView, user_id: u64) -> RosterView {
    RosterView {
        guild_id: roster.guild_id,
        participants: roster.participants,
        pending: others_than(roster.pending, user_id),
    }
}

/// `user_id` has a pending join.
pub open spec fn is_waiting(pending: Seq<PendingJoin>, user_id: u64) -> bool {
    exists|i: int| 0 <= i < pending.len() && (#[trigger] pending[i]).user_id == user_id
}

/// The roster seeded with the occupants of a channel, each taken as having
/// just joined, in the order given.
pub open spec fn seeded(guild_id: u64, channel_id: u64, users: Seq<u64>, now: u64) -> RosterView
    decreases users.len(),
{
    if users.len() == 0 {
        vacant(guild_id)
    } else {
        joined(seeded(guild_id, channel_id, users.drop_last(), now), channel_id, users.last(), now)
    }
}

/// Whom the roster takes for the speaker of an unannounced stream in
/// `channel_id`.
///
/// Exactly one pending join into the channel: that user. Otherwise exactly
/// one participant in the channel: that participant. Otherwise nobody.
pub open spec fn guess_of(roster: RosterView, channel_id: u64) -> Option<u64> {
    let waiting = waiting_in(roster.pending, channel_id);
    if waiting.len() == 1 {
        Some(waiting[0].user_id)
    } else {
        sole_member(roster.participants, channel_id)
    }
}

/// The roster after a guess for `channel_id`: a user guessed from the
/// pending joins is no longer pending; nothing else changes.
pub open spec fn after_guess(roster: RosterView, channel_id: u64) -> RosterView {
    let waiting = waiting_in(roster.pending, channel_id);
    if waiting.len() == 1 {
        RosterView {
            guild_id: roster.guild_id,
            participants: roster.participants,
            pending: others_than(roster.pending, waiting[0].user_id),
        }
    } else {
        roster
    }
}

// ---------------------------------------------------------------------
// Facts about the model
// ---------------------------------------------------------------------
/// Filtering one element further: the element is kept or dropped.
pub proof fn lemma_filter_next<A>(s: Seq<A>, pred: spec_fn(A) -> bool, i: int)
    requires
        0 <= i < s.len(),
    ensures
        s.take(i + 1).filter(pred) == if pred(s[i]) {
            s.take(i).filter(pred).push(s[i])
        } else {
            s.take(i).filter(pred)
        },
{
    reveal(Seq::filter);
    assert(s.take(i + 1).drop_last() =~= s.take(i));
    assert(s.take(i + 1).last() == s[i]);
}

/// What is left after a filter was there before, passes the filter, and
/// nothing that passes was lost; a sequence without a repeated user stays
/// one.
pub proof fn lemma_filter_pending(pending: Seq<PendingJoin>, pred: spec_fn(PendingJoin) -> bool)
    ensures
        forall|i: int|
            0 <= i < pending.filter(pred).len() ==> pred(#[trigger] pending.filter(pred)[i])
                && pending.contains(pending.filter(pred)[i]),
        forall|i: int|
            0 <= i < pending.len() && pred(#[trigger] pending[i]) ==> pending.filter(
                pred,
            ).contains(pending[i]),
        distinct_users(pending) ==> distinct_users(pending.filter(pred)),
    decreases pending.len(),
{
    reveal(Seq::filter);
    if pending.len() > 0 {
        let front = pending.drop_last();
        let last = pending.last();
        lemma_filter_pending(front, pred);
        let kept = front.filter(pred);
        let all = pending.filter(pred);
        assert forall|i: int| 0 <= i < all.len() implies pred(#[trigger] all[i])
            && pending.contains(all[i]) by {
            if i < kept.len() {
                assert(all[i] == kept[i]);
                assert(front.contains(kept[i]));
                let k = choose|k: int| 0 <= k < front.len() && front[k] == kept[i];
                assert(pending[k] == kept[i]);
            } else {
                assert(all[i] == last);
                assert(pending[pending.len() - 1] == last);
            }
        }
        assert forall|i: int| 0 <= i < pending.len() && pred(#[trigger] pending[i]) implies all.contains(
            pending[i],
        ) by {
            if i < front.len() {
                assert(front[i] == pending[i]);
                assert(kept.contains(front[i]));
                let k = choose|k: int| 0 <= k < kept.len() && kept[k] == front[i];
                assert(all[k] == pending[i]);
            } else {
                assert(all[all.len() - 1] == pending[i]);
            }
        }
        if distinct_users(pending) {
            assert(distinct_users(front)) by {
                assert forall|i: int, j: int| 0 <= i < j < front.len() implies (
                #[trigger] front[i]).user_id != (#[trigger] front[j]).user_id by {
                    assert(front[i] == pending[i]);
                    assert(front[j] == pending[j]);
                }
            }
            assert forall|i: int, j: int| 0 <= i < j < all.len() implies (#[trigger] all[i]).user_id
                != (#[trigger] all[j]).user_id by {
                if j < kept.len() {
                    assert(all[i] == kept[i] && all[j] == kept[j]);
                } else {
                    assert(all[j] == last);
                    assert(all[i] == kept[i]);
                    assert(front.contains(kept[i]));
                    let k = choose|k: int| 0 <= k < front.len() && front[k] == kept[i];
                    assert(pending[k] == kept[i]);
                    assert(pending[pending.len() - 1] == last);
                }
            }
        }
    }
}

/// Once a user's pending joins are dropped, the user is not pending, and the
/// rest is pending as before.
pub proof fn lemma_others_than(pending: Seq<PendingJoin>, user_id: u64)
    ensures
        forall|i: int|
            0 <= i < others_than(pending, user_id).len() ==> (#[trigger] others_than(
                pending,
                user_id,
            )[i]).user_id != user_id && pending.contains(others_than(pending, user_id)[i]),
        distinct_users(pending) ==> distinct_users(others_than(pending, user_id)),
{
    lemma_filter_pending(pending, |entry: PendingJoin| entry.user_id != user_id);
}

/// Dropping a user's pending joins keeps a roster consistent, whatever is
/// then done to that user's own record.
proof fn lemma_drop_user_consistent(
    roster: RosterView,
    user_id: u64,
    participants: Map<u64, ParticipantRecord>,
)
    requires
        consistent(roster),
        participants.dom().finite(),
        forall|other: u64|
            other != user_id && #[trigger] roster.participants.contains_key(other)
                ==> participants.contains_key(other) && participants[other]
                == roster.participants[other],
    ensures
        consistent(
            RosterView {
                guild_id: roster.guild_id,
                participants,
                pending: others_than(roster.pending, user_id),
            },
        ),
{
    lemma_others_than(roster.pending, user_id);
    let rest = others_than(roster.pending, user_id);
    assert forall|i: int| 0 <= i < rest.len() implies is_member(
        participants,
        (#[trigger] rest[i]).channel_id,
        rest[i].user_id,
    ) by {
        assert(roster.pending.contains(rest[i]));
        let k = choose|k: int| 0 <= k < roster.pending.len() && roster.pending[k] == rest[i];
        assert(is_member(
            roster.participants,
            roster.pending[k].channel_id,
            roster.pending[k].user_id,
        ));
        assert(roster.participants.contains_key(rest[i].user_id));
    }
}

/// A join keeps the roster consistent.
pub proof fn lemma_joined_consistent(roster: RosterView, channel_id: u64, user_id: u64, now: u64)
    requires
        consistent(roster),
    ensures
        consistent(joined(roster, channel_id, user_id, now)),
{
    let record = ParticipantRecord { channel_id, joined_at: now, last_spoke_at: None };
    let participants = roster.participants.insert(user_id, record);
    lemma_drop_user_consistent(roster, user_id, participants);
    lemma_others_than(roster.pending, user_id);
    let rest = others_than(roster.pending, user_id);
    let entry = PendingJoin { user_id, channel_id, joined_at: now };
    let next = rest.push(entry);
    assert forall|i: int, j: int| 0 <= i < j < next.len() implies (#[trigger] next[i]).user_id != (
    #[trigger] next[j]).user_id by {
        if j < rest.len() {
            assert(next[i] == rest[i] && next[j] == rest[j]);
        } else {
            assert(next[i] == rest[i]);
        }
    }
    assert forall|i: int| 0 <= i < next.len() implies is_member(
        participants,
        (#[trigger] next[i]).channel_id,
        next[i].user_id,
    ) by {
        if i < rest.len() {
            assert(next[i] == rest[i]);
        }
    }
}

/// A departure keeps the roster consistent.
pub proof fn lemma_departed_consistent(roster: RosterView, user_id: u64)
    requires
        consistent(roster),
    ensures
        consistent(departed(roster, user_id)),
{
    lemma_drop_user_consistent(roster, user_id, roster.participants.remove(user_id));
}

/// Attributed speech keeps the roster consistent.
pub proof fn lemma_heard_consistent(roster: RosterView, user_id: u64, now: u64)
    requires
        consistent(roster),
    ensures
        consistent(heard(roster, user_id, now)),
{
    let after = heard(roster, user_id, now);
    lemma_others_than(roster.pending, user_id);
    let rest = others_than(roster.pending, user_id);
    assert forall|i: int| 0 <= i < rest.len() implies is_member(
        after.participants,
        (#[trigger] rest[i]).channel_id,
        rest[i].user_id,
    ) by {
        assert(roster.pending.contains(rest[i]));
        let k = choose|k: int| 0 <= k < roster.pending.len() && roster.pending[k] == rest[i];
        assert(is_member(
            roster.participants,
            roster.pending[k].channel_id,
            roster.pending[k].user_id,
        ));
    }
}

/// A confirmation keeps the roster consistent.
pub proof fn lemma_confirmed_consistent(roster: RosterView, user_id: u64)
    requires
        consistent(roster),
    ensures
        consistent(confirmed(roster, user_id)),
{
    lemma_drop_user_consistent(roster, user_id, roster.participants);
}

/// A guess keeps the roster consistent.
pub proof fn lemma_guess_consistent(roster: RosterView, channel_id: u64)
    requires
        consistent(roster),
    ensures
        consistent(after_guess(roster, channel_id)),
{
    let waiting = waiting_in(roster.pending, channel_id);
    if waiting.len() == 1 {
        lemma_drop_user_consistent(roster, waiting[0].user_id, roster.participants);
    }
}

/// Where a user is, as the gateway reports it.
#[derive(Clone, Copy, Debug, PartialEq, Eq, Structural)]
pub struct VoiceState {
    pub user_id: u64,
    pub channel_id: Option<u64>,
}

/// What a change of a user's voice state means for the tracked call.
#[derive(Clone, Copy, Debug, PartialEq, Eq, Structural)]
pub enum MembershipChange {
    Joined,
    Left,
    Unchanged,
}

/// The users among `states` that are in `channel_id`, the bot left out, in
/// the order of `states`.
pub open spec fn occupants(states: Seq<VoiceState>, bot_id: u64, channel_id: u64) -> Seq<u64> {
    states.filter(
        |state: VoiceState| state.user_id != bot_id && state.channel_id == Some(channel_id),
    ).map_values(|state: VoiceState| state.user_id)
}

/// A user who comes into the call's channel from elsewhere has joined; one
/// who goes from it to elsewhere has left; any other move changes nothing.
pub open spec fn membership_change(
    call_channel: u64,
    old_channel: Option<u64>,
    new_channel: Option<u64>,
) -> MembershipChange {
    if new_channel == Some(call_channel) && old_channel != Some(call_channel) {
        MembershipChange::Joined
    } else if old_channel == Some(call_channel) && new_channel != Some(call_channel) {
        MembershipChange::Left
    } else {
        MembershipChange::Unchanged
    }
}

/// The roster after a change of voice state was seen. Without a tracked
/// call, and for the bot itself, nothing changes.
pub open spec fn observed(
    roster: RosterView,
    call_channel: Option<u64>,
    bot_id: u64,
    user_id: u64,
    old_channel: Option<u64>,
    new_channel: Option<u64>,
    now: u64,
) -> RosterView {
    match call_channel {
        Some(channel_id) => if user_id == bot_id {
            roster
        } else {
            match membership_change(channel_id, old_channel, new_channel) {
                MembershipChange::Joined => joined(roster, channel_id, user_id, now),
                MembershipChange::Left => departed(roster, user_id),
                MembershipChange::Unchanged => roster,
            }
        },
        None => roster,
    }
}

// ---------------------------------------------------------------------
// The roster itself
// ---------------------------------------------------------------------
impl View for VoiceRoster {
    type V = RosterView;

    closed spec fn view(&self) -> RosterView {
        RosterView {
            guild_id: self.guild_id,
            participants: participant_entries(self.participants),
            pending: self.pending@,
        }
    }
}

impl VoiceRoster {
    /// The roster's invariant holds of this value.
    pub open spec fn wf(&self) -> bool {
        consistent(self@)
    }

    /// A roster for `guild_id` that tracks nobody yet.
    pub fn new(guild_id: u64) -> (roster: Self)
        ensures
            roster.wf(),
            roster@ == vacant(guild_id),
    {
        let roster = VoiceRoster {
            guild_id,
            participants: participant_table_new(),
            pending: VecDeque::new(),
        };
        assert(roster@.pending =~= Seq::empty());
        roster
    }

    /// The guild whose call this roster follows.
    pub fn guild_id(&self) -> (guild_id: u64)
        ensures
            guild_id == self@.guild_id,
    {
        self.guild_id
    }

    /// Replaces the whole roster by the occupants of `channel_id`: each of
    /// `initial_users` becomes a participant and a pending join, in the
    /// order given. Nothing of the roster's earlier state is kept.
    pub fn reset(&mut self, channel_id: u64, initial_users: &[u64], now: u64)
        requires
            old(self).wf(),
        ensures
            final(self).wf(),
            final(self)@ == seeded(old(self)@.guild_id, channel_id, initial_users@, now),
    {
        self.clear();
        let ghost guild_id = self.guild_id;
        let mut i: usize = 0;
        assert(initial_users@.take(0) =~= Seq::empty());
        while i < initial_users.len()
            invariant
                i <= initial_users@.len(),
                self.wf(),
                self.guild_id == guild_id,
                self@ == seeded(guild_id, channel_id, initial_users@.take(i as int), now),
            decreases initial_users@.len() - i,
        {
            let user_id = initial_users[i];
            proof {
                assert(initial_users@.take(i + 1).drop_last() =~= initial_users@.take(i as int));
                assert(initial_users@.take(i + 1).last() == user_id);
            }
            self.note_join(channel_id, user_id, now);
            i += 1;
        }
        assert(initial_users@.take(i as int) =~= initial_users@);
    }

    /// Notes that `user_id` joined `channel_id`: the user becomes a
    /// participant of that channel and the newest pending join.
    pub fn note_join(&mut self, channel_id: u64, user_id: u64, now: u64)
        requires
            old(self).wf(),
        ensures
            final(self).wf(),
            final(self)@ == joined(old(self)@, channel_id, user_id, now),
    {
        proof {
            lemma_joined_consistent(self@, channel_id, user_id, now);
        }
        let _ = participant_table_insert(
            &mut self.participants,
            user_id,
            ParticipantRecord { channel_id, joined_at: now, last_spoke_at: None },
        );
        self.forget_pending(user_id);
        self.pending.push_back(PendingJoin { user_id, channel_id, joined_at: now });
    }

    /// Notes that `user_id` left the tracked channel: the user is neither a
    /// participant nor pending any more.
    pub fn note_leave(&mut self, user_id: u64)
        requires
            old(self).wf(),
        ensures
            final(self).wf(),
            final(self)@ == departed(old(self)@, user_id),
    {
        proof {
            lemma_departed_consistent(self@, user_id);
        }
        let _ = participant_table_remove(&mut self.participants, user_id);
        self.forget_pending(user_id);
    }

    /// Notes that speech was attributed to `user_id`: the user is no longer
    /// pending, and the time is kept in the user's record, if there is one.
    pub fn note_spoke(&mut self, user_id: u64, now: u64)
        requires
            old(self).wf(),
        ensures
            final(self).wf(),
            final(self)@ == heard(old(self)@, user_id, now),
    {
        proof {
            lemma_heard_consistent(self@, user_id, now);
        }
        let ghost before = self@.participants;
        match participant_table_remove(&mut self.participants, user_id) {
            Some(record) => {
                let _ = participant_table_insert(
                    &mut self.participants,
                    user_id,
                    ParticipantRecord {
                        channel_id: record.channel_id,
                        joined_at: record.joined_at,
                        last_spoke_at: Some(now),
                    },
                );
                assert(self@.participants =~= heard(old(self)@, user_id, now).participants);
            },
            None => {
                assert(self@.participants =~= before);
            },
        }
        self.forget_pending(user_id);
    }

    /// Notes that `user_id` was confirmed as the owner of a stream: the user
    /// is no longer pending. The user's record is left as it is.
    pub fn note_confirmed(&mut self, user_id: u64)
        requires
            old(self).wf(),
        ensures
            final(self).wf(),
            final(self)@ == confirmed(old(self)@, user_id),
    {
        proof {
            lemma_confirmed_consistent(self@, user_id);
        }
        self.forget_pending(user_id);
    }

    /// Guesses the speaker of an unannounced stream in `channel_id`.
    ///
    /// If exactly one join into the channel is pending, that user is the
    /// guess and stops being pending. Otherwise, if exactly one participant
    /// is in the channel, that participant is the guess. Otherwise there is
    /// no guess.
    pub fn guess_speaker(&mut self, channel_id: u64) -> (guess: Option<u64>)
        requires
            old(self).wf(),
        ensures
            final(self).wf(),
            guess == guess_of(old(self)@, channel_id),
            final(self)@ == after_guess(old(self)@, channel_id),
    {
        proof {
            lemma_guess_consistent(self@, channel_id);
        }
        if let Some(user_id) = self.take_pending_for_channel(channel_id) {
            return Some(user_id);
        }
        let pairs = participant_table_pairs(&self.participants);
        let ghost entries = self@.participants;
        let mut candidate: Option<u64> = None;
        let mut several = false;
        let ghost mut first: int = 0;
        let ghost mut second: int = 0;
        let mut i: usize = 0;
        while i < pairs.len()
            invariant
                i <= pairs@.len(),
                lists_all(pairs@, entries),
                candidate.is_none() ==> !several,
                candidate.is_none() ==> forall|j: int|
                    0 <= j < i ==> (#[trigger] pairs@[j]).1.channel_id != channel_id,
                candidate.is_some() ==> 0 <= first < i && pairs@[first].0 == candidate.unwrap()
                    && pairs@[first].1.channel_id == channel_id,
                candidate.is_some() && !several ==> forall|j: int|
                    0 <= j < i && j != first ==> (#[trigger] pairs@[j]).1.channel_id
                        != channel_id,
                several ==> first < second < i && pairs@[second].1.channel_id == channel_id,
            decreases pairs@.len() - i,
        {
            let pair = pairs[i];
            if pair.1.channel_id == channel_id {
                if candidate.is_some() {
                    if !several {
                        proof {
                            second = i as int;
                        }
                    }
                    several = true;
                } else {
                    candidate = Some(pair.0);
                    proof {
                        first = i as int;
                    }
                }
            }
            i += 1;
        }
        proof {
            if several {
                assert(entries.contains_pair(pairs@[first].0, pairs@[first].1));
                assert(entries.contains_pair(pairs@[second].0, pairs@[second].1));
                assert(is_member(entries, channel_id, pairs@[first].0));
                assert(is_member(entries, channel_id, pairs@[second].0));
                assert(pairs@[first].0 != pairs@[second].0);
                assert(sole_member(entries, channel_id).is_none());
            } else if candidate.is_some() {
                let user_id = candidate.unwrap();
                assert(entries.contains_pair(pairs@[first].0, pairs@[first].1));
                assert forall|other: u64| #[trigger]
                    is_member(entries, channel_id, other) implies other == user_id by {
                    let k = choose|k: int| 0 <= k < pairs@.len() && (#[trigger] pairs@[k]).0 == other;
                    assert(entries.contains_pair(pairs@[k].0, pairs@[k].1));
                }
                assert(is_sole_member(entries, channel_id, user_id));
            } else {
                assert forall|other: u64| !is_sole_member(entries, channel_id, other) by {
                    if is_member(entries, channel_id, other) {
                        let k = choose|k: int|
                            0 <= k < pairs@.len() && (#[trigger] pairs@[k]).0 == other;
                        assert(entries.contains_pair(pairs@[k].0, pairs@[k].1));
                    }
                }
            }
        }
        if several {
            None
        } else {
            candidate
        }
    }

    /// Starts over for a call in `channel_id`: the roster is replaced by the
    /// users that `states` places in the channel, the bot left out.
    pub fn prepare_roster(&mut self, states: &[VoiceState], bot_id: u64, channel_id: u64, now: u64)
        requires
            old(self).wf(),
        ensures
            final(self).wf(),
            final(self)@ == seeded(
                old(self)@.guild_id,
                channel_id,
                occupants(states@, bot_id, channel_id),
                now,
            ),
    {
        let initial_users = occupants_of(states, bot_id, channel_id);
        self.reset(channel_id, initial_users.as_slice(), now);
    }

    /// Follows a change of a user's voice state while a call is tracked in
    /// `call_channel`: a user who came into the channel is noted as joined,
    /// one who went from it as left. The bot's own moves are ignored.
    pub fn handle_voice_state_update(
        &mut self,
        call_channel: Option<u64>,
        bot_id: u64,
        user_id: u64,
        old_channel: Option<u64>,
        new_channel: Option<u64>,
        now: u64,
    )
        requires
            old(self).wf(),
        ensures
            final(self).wf(),
            final(self)@ == observed(
                old(self)@,
                call_channel,
                bot_id,
                user_id,
                old_channel,
                new_channel,
                now,
            ),
    {
        let channel_id = match call_channel {
            Some(channel_id) => channel_id,
            None => {
                return ;
            },
        };
        if user_id == bot_id {
            return ;
        }
        match classify_move(channel_id, old_channel, new_channel) {
            MembershipChange::Joined => self.note_join(channel_id, user_id, now),
            MembershipChange::Left => self.note_leave(user_id),
            MembershipChange::Unchanged => {},
        }
    }

    /// Forgets everybody: no participant and no pending join is left.
    pub fn clear(&mut self)
        requires
            old(self).wf(),
        ensures
            final(self).wf(),
            final(self)@ == vacant(old(self)@.guild_id),
    {
        participant_table_clear(&mut self.participants);
        self.pending.clear();
        assert(self@.pending =~= Seq::empty());
    }

    /// The number of users tracked as participants.
    pub fn participant_count(&self) -> (count: usize)
        requires
            self.wf(),
        ensures
            count == self@.participants.dom().len(),
    {
        participant_table_len(&self.participants)
    }

    /// What the roster keeps about a user, if the user is a participant.
    pub fn participant(&self, user_id: u64) -> (record: Option<ParticipantRecord>)
        ensures
            record == crate::shared_map::entry_of(self@.participants, user_id),
    {
        let pairs = participant_table_pairs(&self.participants);
        let ghost entries = self@.participants;
        let mut i: usize = 0;
        while i < pairs.len()
            invariant
                i <= pairs@.len(),
                entries == self@.participants,
                lists_all(pairs@, entries),
                forall|j: int| 0 <= j < i ==> (#[trigger] pairs@[j]).0 != user_id,
            decreases pairs@.len() - i,
        {
            let pair = pairs[i];
            if pair.0 == user_id {
                assert(entries.contains_pair(pairs@[i as int].0, pairs@[i as int].1));
                return Some(pair.1);
            }
            i += 1;
        }
        proof {
            if entries.contains_key(user_id) {
                let k = choose|k: int| 0 <= k < pairs@.len() && (#[trigger] pairs@[k]).0 == user_id;
                assert(pairs@[k].0 != user_id);
            }
        }
        None
    }

    /// The number of pending joins.
    pub fn pending_count(&self) -> (count: usize)
        ensures
            count == self@.pending.len(),
    {
        self.pending.len()
    }

    /// Whether `user_id` has a pending join.
    pub fn is_pending(&self, user_id: u64) -> (pending: bool)
        ensures
            pending == is_waiting(self@.pending, user_id),
    {
        let mut i: usize = 0;
        while i < self.pending.len()
            invariant
                i <= self.pending@.len(),
                forall|j: int| 0 <= j < i ==> (#[trigger] self.pending@[j]).user_id != user_id,
            decreases self.pending@.len() - i,
        {
            if self.pending[i].user_id == user_id {
                assert(self@.pending[i as int].user_id == user_id);
                return true;
            }
            i += 1;
        }
        false
    }

    /// The pending join into `channel_id`, when there is exactly one: it is
    /// taken off the queue.
    fn take_pending_for_channel(&mut self, channel_id: u64) -> (taken: Option<u64>)
        ensures
            final(self).guild_id == old(self).guild_id,
            final(self).participants == old(self).participants,
            waiting_in(old(self).pending@, channel_id).len() == 1 ==> taken == Some(
                waiting_in(old(self).pending@, channel_id)[0].user_id,
            ) && final(self).pending@ == others_than(
                old(self).pending@,
                waiting_in(old(self).pending@, channel_id)[0].user_id,
            ),
            waiting_in(old(self).pending@, channel_id).len() != 1 ==> taken.is_none()
                && final(self).pending == old(self).pending,
    {
        let ghost pending = self.pending@;
        let mut hits: usize = 0;
        let mut first: u64 = 0;
        let mut i: usize = 0;
        proof {
            reveal(Seq::filter);
            assert(pending.take(0) =~= Seq::empty());
        }
        while i < self.pending.len()
            invariant
                i <= pending.len(),
                self.pending@ == pending,
                *self == *old(self),
                hits == waiting_in(pending.take(i as int), channel_id).len(),
                hits <= i,
                hits >= 1 ==> first == waiting_in(pending.take(i as int), channel_id)[0].user_id,
            decreases pending.len() - i,
        {
            let entry = self.pending[i];
            proof {
                lemma_filter_next(
                    pending,
                    |entry: PendingJoin| entry.channel_id == channel_id,
                    i as int,
                );
            }
            if entry.channel_id == channel_id {
                if hits == 0 {
                    first = entry.user_id;
                }
                hits += 1;
            }
            i += 1;
        }
        assert(pending.take(i as int) =~= pending);
        if hits == 1 {
            self.forget_pending(first);
            Some(first)
        } else {
            None
        }
    }

    /// Drops the pending joins of `user_id`.
    fn forget_pending(&mut self, user_id: u64)
        ensures
            final(self).guild_id == old(self).guild_id,
            final(self).participants == old(self).participants,
            final(self).pending@ == others_than(old(self).pending@, user_id),
    {
        let ghost pending = self.pending@;
        let mut kept: VecDeque<PendingJoin> = VecDeque::new();
        let mut i: usize = 0;
        proof {
            reveal(Seq::filter);
            assert(pending.take(0) =~= Seq::empty());
            assert(kept@ =~= others_than(pending.take(0), user_id));
        }
        while i < self.pending.len()
            invariant
                i <= pending.len(),
                self.pending@ == pending,
                *self == *old(self),
                kept@ == others_than(pending.take(i as int), user_id),
            decreases pending.len() - i,
        {
            let entry = self.pending[i];
            proof {
                lemma_filter_next(
                    pending,
                    |entry: PendingJoin| entry.user_id != user_id,
                    i as int,
                );
            }
            if entry.user_id != user_id {
                kept.push_back(entry);
            }
            i += 1;
        }
        assert(pending.take(i as int) =~= pending);
        self.pending = kept;
    }
}

/// What a change of a user's voice state means for the call tracked in
/// `call_channel`.
pub fn classify_move(call_channel: u64, old_channel: Option<u64>, new_channel: Option<u64>) -> (change:
    MembershipChange)
    ensures
        change == membership_change(call_channel, old_channel, new_channel),
{
    let was_in = match old_channel {
        Some(channel_id) => channel_id == call_channel,
        None => false,
    };
    let is_in = match new_channel {
        Some(channel_id) => channel_id == call_channel,
        None => false,
    };
    if is_in && !was_in {
        MembershipChange::Joined
    } else if was_in && !is_in {
        MembershipChange::Left
    } else {
        MembershipChange::Unchanged
    }
}

/// The users among `states` that are in `channel_id`, the bot left out.
pub fn occupants_of(states: &[VoiceState], bot_id: u64, channel_id: u64) -> (users: Vec<u64>)
    ensures
        users@ == occupants(states@, bot_id, channel_id),
{
    let ghost wanted = |state: VoiceState|
        state.user_id != bot_id && state.channel_id == Some(channel_id);
    let ghost id_of = |state: VoiceState| state.user_id;
    let mut users: Vec<u64> = Vec::new();
    let mut i: usize = 0;
    proof {
        reveal(Seq::filter);
        assert(states@.take(0) =~= Seq::<VoiceState>::empty());
        assert(users@ =~= states@.take(0).filter(wanted).map_values(id_of));
    }
    while i < states.len()
        invariant
            i <= states@.len(),
            wanted == |state: VoiceState|
                state.user_id != bot_id && state.channel_id == Some(channel_id),
            id_of == |state: VoiceState| state.user_id,
            users@ == states@.take(i as int).filter(wanted).map_values(id_of),
        decreases states@.len() - i,
    {
        let state = states[i];
        proof {
            lemma_filter_next(states@, wanted, i as int);
        }
        let here = match state.channel_id {
            Some(id) => id == channel_id,
            None => false,
        };
        if state.user_id != bot_id && here {
            users.push(state.user_id);
            assert(users@ =~= states@.take(i + 1).filter(wanted).map_values(id_of));
        }
        i += 1;
    }
    proof {
        assert(states@.take(i as int) =~= states@);
    }
    users
}

} // verus!
