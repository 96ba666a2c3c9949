//! Who a stream's audio is attributed to.

use crate::text::{decimal_digits, push_decimal};
use vstd::prelude::*;
use vstd::string::StringExecFns;

verus! {

/// The speaker of a stream: a user that is known, or a provisional label
/// that stands in for one.
#[derive(Clone, Debug)]
pub enum SpeakerIdentity {
    Known(u64),
    Placeholder { label: String },
}

/// A speaker identity as a mathematical value.
pub enum SpeakerView {
    Known(u64),
    Placeholder(Seq<char>),
}

impl View for SpeakerIdentity {
    type V = SpeakerView;

    open spec fn view(&self) -> SpeakerView {
        match self {
            SpeakerIdentity::Known(user_id) => SpeakerView::Known(*user_id),
            SpeakerIdentity::Placeholder { label } => SpeakerView::Placeholder(label@),
        }
    }
}

/// The placeholder label of a stream session id: the word "Speaker", a
/// space, and the id in decimal.
pub open spec fn placeholder_text(ssrc: u32) -> Seq<char> {
    "Speaker "@ + decimal_digits(ssrc as nat)
}

/// The name shown for a user whose name cannot be found: the word "User", a
/// space, and the id in decimal.
pub open spec fn fallback_name_text(user_id: u64) -> Seq<char> {
    "User "@ + decimal_digits(user_id as nat)
}

/// The user behind an identity, if it is known.
pub open spec fn known_user(identity: SpeakerView) -> Option<u64> {
    match identity {
        SpeakerView::Known(user_id) => Some(user_id),
        SpeakerView::Placeholder(_) => None,
    }
}

impl SpeakerIdentity {
    /// A copy of this identity.
    pub fn duplicate(&self) -> (copy: Self)
        ensures
            copy@ == self@,
    {
        match self {
            SpeakerIdentity::Known(user_id) => SpeakerIdentity::Known(*user_id),
            SpeakerIdentity::Placeholder { label } => SpeakerIdentity::Placeholder {
                label: label.clone(),
            },
        }
    }

    /// The user behind this identity, if it is known.
    pub fn user_id(&self) -> (user_id: Option<u64>)
        ensures
            user_id == known_user(self@),
    {
        match self {
            SpeakerIdentity::Known(user_id) => Some(*user_id),
            SpeakerIdentity::Placeholder { .. } => None,
        }
    }

    /// Whether this identity is a known user.
    pub fn is_known(&self) -> (known: bool)
        ensures
            known == (self@ is Known),
    {
        match self {
            SpeakerIdentity::Known(_) => true,
            SpeakerIdentity::Placeholder { .. } => false,
        }
    }
}

/// Mints the placeholder label of a stream session id. The label depends on
/// the id alone, so every chunk of an unresolved stream carries the same one.
pub fn placeholder_for(ssrc: u32) -> (label: String)
    ensures
        label@ == placeholder_text(ssrc),
{
    let mut label = String::from_str("Speaker ");
    push_decimal(&mut label, ssrc as u64);
    label
}

/// The name to show for a user whose name could not be found.
pub fn fallback_user_name(user_id: u64) -> (name: String)
    ensures
        name@ == fallback_name_text(user_id),
{
    let mut name = String::from_str("User ");
    push_decimal(&mut name, user_id);
    name
}

/// The name to show for a user: the one that was found, else the fallback.
pub fn display_name(found: Option<String>, user_id: u64) -> (name: String)
    ensures
        name@ == (match found {
            Some(text) => text@,
            None => fallback_name_text(user_id),
        }),
{
    match found {
        Some(text) => text,
        None => fallback_user_name(user_id),
    }
}

} // verus!
