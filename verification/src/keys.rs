//! Where the key lives: the order in which the system's secret store and the
//! key file are asked for it, and in which a new key is put away.
//!
//! The manager decides and its caller acts. The caller does what the current
//! step names, reports what came of it, and goes on until the step is `Ready`
//! or `Unavailable`. The secret store is always asked first, the file second:
//! the same answers lead through the same steps.

use vstd::prelude::*;
use crate::cipher::EncryptionKey;
use crate::cipher::KEY_LEN;

verus! {

/// What the caller is to do now.
#[derive(Clone, Copy, Debug, PartialEq, Eq, Structural)]
pub enum KeyStep {
    /// Read the key from the system's secret store.
    ReadKeyring,
    /// Read the key file.
    ReadKeyFile,
    /// Write the pending key to the system's secret store.
    WriteKeyring,
    /// Read the key back from the system's secret store.
    CheckKeyring,
    /// Write the pending key to the key file, readable by its owner only.
    WriteKeyFile,
    /// The key is there.
    Ready,
    /// No key can be had.
    Unavailable,
}

/// What came of a step.
#[derive(Debug)]
pub enum KeyReply {
    /// The read gave these bytes.
    Found(Vec<u8>),
    /// The read gave nothing.
    Absent,
    /// The write went through.
    Written,
    /// The write failed.
    Refused,
}

/// The reply holds the bytes of a key.
pub open spec fn holds_key(reply: KeyReply) -> bool {
    reply matches KeyReply::Found(bytes) && bytes@.len() == KEY_LEN
}

/// The step that follows `step` on `reply`. A read that gives no key leads to
/// the next place to look, and after the last one to a new key if one may be
/// created. A new key goes to the secret store, is read back from there, and
/// goes to the file if either fails.
pub open spec fn next_step(create: bool, step: KeyStep, reply: KeyReply) -> KeyStep {
    match step {
        KeyStep::ReadKeyring => if holds_key(reply) {
            KeyStep::Ready
        } else {
            KeyStep::ReadKeyFile
        },
        KeyStep::ReadKeyFile => if holds_key(reply) {
            KeyStep::Ready
        } else if create {
            KeyStep::WriteKeyring
        } else {
            KeyStep::Unavailable
        },
        KeyStep::WriteKeyring => if reply is Written {
            KeyStep::CheckKeyring
        } else {
            KeyStep::WriteKeyFile
        },
        KeyStep::CheckKeyring => if reply is Found {
            KeyStep::Ready
        } else {
            KeyStep::WriteKeyFile
        },
        KeyStep::WriteKeyFile => if reply is Written {
            KeyStep::Ready
        } else {
            KeyStep::Unavailable
        },
        KeyStep::Ready => KeyStep::Ready,
        KeyStep::Unavailable => KeyStep::Unavailable,
    }
}

/// How many steps may still follow `step`.
pub open spec fn steps_left(step: KeyStep) -> nat {
    match step {
        KeyStep::ReadKeyring => 5,
        KeyStep::ReadKeyFile => 4,
        KeyStep::WriteKeyring => 3,
        KeyStep::CheckKeyring => 2,
        KeyStep::WriteKeyFile => 1,
        KeyStep::Ready => 0,
        KeyStep::Unavailable => 0,
    }
}

/// While a key is being put away, and once it is ready, it is held.
pub open spec fn holds_pending(step: KeyStep) -> bool {
    step is WriteKeyring || step is CheckKeyring || step is WriteKeyFile || step is Ready
}

/// Every step brings the end nearer: whatever the replies, `Ready` or
/// `Unavailable` is reached after five steps at most.
pub proof fn lemma_steps_decrease(create: bool, step: KeyStep, reply: KeyReply)
    ensures
        steps_left(step) > 0 ==> steps_left(next_step(create, step, reply)) < steps_left(step),
        steps_left(step) == 0 ==> next_step(create, step, reply) == step,
{
}

/// No key is given up for lost while there is a place left to try: the only
/// ways to `Unavailable` are a key file without a key when none may be
/// created, and a key file that cannot be written.
pub proof fn lemma_unavailable_only_after_file(create: bool, step: KeyStep, reply: KeyReply)
    requires
        next_step(create, step, reply) is Unavailable,
    ensures
        step is Unavailable || (step is ReadKeyFile && !create && !holds_key(reply)) || (step
            is WriteKeyFile && !(reply is Written)),
{
}

/// The decisions on where the key is read and written.
pub struct KeyManager {
    create: bool,
    step: KeyStep,
    key: Option<EncryptionKey>,
}

impl KeyManager {
    #[verifier::type_invariant]
    spec fn consistent(self) -> bool {
        &&& holds_pending(self.step) == (self.key is Some)
        &&& self.key matches Some(key) ==> key@.len() == KEY_LEN
    }

    /// A new key may be created where none is found.
    pub closed spec fn may_create(&self) -> bool {
        self.create
    }

    /// What the caller is to do now.
    pub closed spec fn current(&self) -> KeyStep {
        self.step
    }

    /// The bytes of the key that is held, if one is.
    pub closed spec fn held(&self) -> Option<Seq<u8>> {
        match self.key {
            Some(key) => Some(key@),
            None => None,
        }
    }

    /// A manager that starts by asking the system's secret store. With
    /// `create`, a key that is found nowhere is made anew.
    pub fn new(create: bool) -> (manager: KeyManager)
        ensures
            manager.may_create() == create,
            manager.current() is ReadKeyring,
            manager.held() is None,
    {
        KeyManager { create, step: KeyStep::ReadKeyring, key: None }
    }

    /// What the caller is to do now. A key is held exactly while one is being
    /// put away or is ready, and it has 32 bytes.
    pub fn step(&self) -> (step: KeyStep)
        ensures
            step == self.current(),
            holds_pending(step) == (self.held() is Some),
            self.held() matches Some(bytes) ==> bytes.len() == KEY_LEN,
    {
        proof {
            use_type_invariant(self);
        }
        self.step
    }

    /// The key that is held: the one to write while it is being put away.
    pub fn pending(&self) -> (key: Option<&EncryptionKey>)
        ensures
            key is Some == (self.held() is Some),
            key matches Some(k) ==> self.held() == Some(k@),
    {
        self.key.as_ref()
    }

    /// Takes the reply to the current step and moves to the next one. A key
    /// that was read is held from then on; where a key is to be created, a
    /// new random one is held; a held key stays until the end, and is wiped
    /// where the end is `Unavailable`.
    pub fn advance(self, reply: KeyReply) -> (next: KeyManager)
        ensures
            next.may_create() == self.may_create(),
            next.current() == next_step(self.may_create(), self.current(), reply),
            holds_pending(next.current()) == (next.held() is Some),
            next.held() matches Some(bytes) ==> bytes.len() == KEY_LEN,
            (self.current() is ReadKeyring || self.current() is ReadKeyFile) && holds_key(reply)
                ==> next.held() == Some(reply->Found_0@),
            self.held() is Some && next.held() is Some ==> next.held() == self.held(),
    {
        proof {
            use_type_invariant(&self);
        }
        let create = self.create;
        let step = self.step;
        let mut key = self.key;
        match step {
            KeyStep::ReadKeyring | KeyStep::ReadKeyFile => {
                let loaded = match &reply {
                    KeyReply::Found(bytes) => EncryptionKey::from_bytes(bytes.as_slice()),
                    _ => None,
                };
                match loaded {
                    Some(found) => KeyManager { create, step: KeyStep::Ready, key: Some(found) },
                    None => match step {
                        KeyStep::ReadKeyring => KeyManager {
                            create,
                            step: KeyStep::ReadKeyFile,
                            key: None,
                        },
                        _ => if create {
                            KeyManager {
                                create,
                                step: KeyStep::WriteKeyring,
                                key: Some(EncryptionKey::generate()),
                            }
                        } else {
                            KeyManager { create, step: KeyStep::Unavailable, key: None }
                        },
                    },
                }
            },
            KeyStep::WriteKeyring => {
                let written = match reply {
                    KeyReply::Written => true,
                    _ => false,
                };
                if written {
                    KeyManager { create, step: KeyStep::CheckKeyring, key }
                } else {
                    KeyManager { create, step: KeyStep::WriteKeyFile, key }
                }
            },
            KeyStep::CheckKeyring => {
                let found = match reply {
                    KeyReply::Found(_) => true,
                    _ => false,
                };
                if found {
                    KeyManager { create, step: KeyStep::Ready, key }
                } else {
                    KeyManager { create, step: KeyStep::WriteKeyFile, key }
                }
            },
            KeyStep::WriteKeyFile => {
                let written = match reply {
                    KeyReply::Written => true,
                    _ => false,
                };
                if written {
                    KeyManager { create, step: KeyStep::Ready, key }
                } else {
                    match &mut key {
                        Some(lost) => lost.wipe(),
                        None => {},
                    }
                    KeyManager { create, step: KeyStep::Unavailable, key: None }
                }
            },
            KeyStep::Ready => KeyManager { create, step: KeyStep::Ready, key },
            KeyStep::Unavailable => KeyManager { create, step: KeyStep::Unavailable, key },
        }
    }

    /// The key, once it is ready.
    pub fn into_key(self) -> (key: Option<EncryptionKey>)
        ensures
            key is Some <==> self.current() is Ready,
            key matches Some(k) ==> self.held() == Some(k@) && k@.len() == KEY_LEN,
    {
        proof {
            use_type_invariant(&self);
        }
        match self.step {
            KeyStep::Ready => self.key,
            _ => {
                let mut key = self.key;
                match &mut key {
                    Some(unused) => unused.wipe(),
                    None => {},
                }
                None
            },
        }
    }
}

/// What to tell the user where no key can be had.
pub fn unavailable_message() -> (text: &'static str)
    ensures
        text@ == "failed to read encryption key"@,
{
    "failed to read encryption key"
}

/// What the user may do where no key can be had.
pub fn unavailable_hint() -> (text: &'static str)
    ensures
        text@ == "keyring entry is missing or inaccessible; restore it or re-add values"@,
{
    "keyring entry is missing or inaccessible; restore it or re-add values"
}

} // verus!
