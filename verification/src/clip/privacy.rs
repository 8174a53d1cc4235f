//! What is never recorded: everything in private mode, what a password
//! manager marked as secret, and copies with nothing in them.

use vstd::prelude::*;

use super::model::{Capture, EntryKind, Flavor};
use super::settings::Settings;
use crate::text::{chars_of, decode_lossy, eq_ci, eq_ignore_case, trim, trimmed, utf8_lossy};

verus! {

/// Why a copy was not recorded.
#[derive(Clone, Debug, PartialEq, Eq, Structural)]
pub enum Refusal {
    PrivateMode,
    PasswordHint,
    Empty,
}

impl Refusal {
    /// What the refusal says in a sentence.
    pub fn describe(&self) -> (r: &'static str)
        ensures
            r@ == match self {
                Refusal::PrivateMode => "private mode is on"@,
                Refusal::PasswordHint => "the source marked it as a secret"@,
                Refusal::Empty => "it is empty"@,
            },
    {
        match self {
            Self::PrivateMode => "private mode is on",
            Self::PasswordHint => "the source marked it as a secret",
            Self::Empty => "it is empty",
        }
    }
}

/// The privacy part of the settings, applied to copies.
pub struct Filter {
    private_mode: bool,
    respect_password_hint: bool,
}

/// Why a copy is refused, if it is: private mode first, then a secret the
/// source marked (when such marks are honoured), then emptiness.
pub open spec fn refusal(
    private_mode: bool,
    respect_password_hint: bool,
    kind: EntryKind,
    flavors: Seq<Flavor>,
    secret: bool,
) -> Option<Refusal> {
    if private_mode {
        Some(Refusal::PrivateMode)
    } else if respect_password_hint && secret {
        Some(Refusal::PasswordHint)
    } else if flavors.len() == 0 {
        Some(Refusal::Empty)
    } else if kind == EntryKind::Text && trim(utf8_lossy(flavors[0].body@)).len() == 0 {
        Some(Refusal::Empty)
    } else if flavors[0].body@.len() == 0 {
        Some(Refusal::Empty)
    } else {
        None
    }
}

impl Filter {
    /// Whether private mode is on.
    pub closed spec fn private_mode(self) -> bool {
        self.private_mode
    }

    /// Whether a password manager's secret mark is honoured.
    pub closed spec fn respects_hint(self) -> bool {
        self.respect_password_hint
    }

    pub fn new(settings: &Settings) -> (r: Self)
        ensures
            r.private_mode() == settings.private_mode,
            r.respects_hint() == settings.respect_password_hint,
    {
        Self {
            private_mode: settings.private_mode,
            respect_password_hint: settings.respect_password_hint,
        }
    }

    /// Whether offers are read at all: not in private mode.
    pub fn accepts_offers(&self) -> (r: bool)
        ensures
            r == !self.private_mode(),
    {
        !self.private_mode
    }

    /// Whether a copy may be recorded, `password_hint_is_secret` telling
    /// whether its source marked it as a secret.
    pub fn accepts(&self, capture: &Capture, password_hint_is_secret: bool) -> (r: Result<(), Refusal>)
        ensures
            match r {
                Ok(()) => refusal(
                    self.private_mode(),
                    self.respects_hint(),
                    capture.kind,
                    capture.flavors@,
                    password_hint_is_secret,
                ) is None,
                Err(why) => refusal(
                    self.private_mode(),
                    self.respects_hint(),
                    capture.kind,
                    capture.flavors@,
                    password_hint_is_secret,
                ) == Some(why),
            },
    {
        if self.private_mode {
            return Err(Refusal::PrivateMode);
        }
        if self.respect_password_hint && password_hint_is_secret {
            return Err(Refusal::PasswordHint);
        }
        let Some(primary) = capture.primary() else {
            return Err(Refusal::Empty);
        };
        if capture.kind == EntryKind::Text {
            let text = trimmed(decode_lossy(primary.body.as_slice()).as_slice());
            if text.len() == 0 {
                return Err(Refusal::Empty);
            }
        }
        if primary.body.len() == 0 {
            return Err(Refusal::Empty);
        }
        Ok(())
    }
}

/// Whether the body of a password manager's hint marks a secret: it reads
/// "secret", ignoring case and surrounding whitespace.
pub open spec fn is_secret_hint(body: Seq<u8>) -> bool {
    eq_ci(trim(utf8_lossy(body)), "secret"@)
}

pub fn hint_is_secret(body: &[u8]) -> (r: bool)
    ensures
        r == is_secret_hint(body@),
{
    let text = trimmed(decode_lossy(body).as_slice());
    eq_ignore_case(text.as_slice(), chars_of(super::mime::PASSWORD_HINT_SECRET).as_slice())
}

/// In private mode nothing at all is recorded, whatever it is and whatever
/// its source says of it.
pub proof fn private_mode_refuses_everything(
    respect: bool,
    kind: EntryKind,
    flavors: Seq<Flavor>,
    secret: bool,
)
    ensures
        refusal(true, respect, kind, flavors, secret) == Some(Refusal::PrivateMode),
{
}

/// What is recorded has a primary flavour with something in it.
pub proof fn accepted_copies_are_not_empty(
    private_mode: bool,
    respect: bool,
    kind: EntryKind,
    flavors: Seq<Flavor>,
    secret: bool,
)
    requires
        refusal(private_mode, respect, kind, flavors, secret) is None,
    ensures
        !private_mode,
        !(respect && secret),
        flavors.len() > 0,
        flavors[0].body@.len() > 0,
{
}

} // verus!
