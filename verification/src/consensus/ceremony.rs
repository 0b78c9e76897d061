//! The key ceremony as a whole: what the genesis gives, and what the epoch manager is told from then on.

use crate::consensus::dkg::{
    epoch_after, is_material, law_epochs_follow_one_another, lies_beyond, share_bytes, start_dkg,
    transitions_of, DkgStart, EpochTracker, KeyMaterial, Transition,
};
use crate::consensus::genesis::{keys_of, ValidatorConfig};
use crate::consensus::keys::{is_key_text, PublicKey};
use vstd::prelude::*;

verus! {

/// News of the finalized chain.
#[derive(Clone, Copy, PartialEq, Eq, Structural, Debug)]
pub enum CeremonyUpdate {
    /// A new tip, with the epoch that its height belongs to, if there is one.
    Tip { epoch: Option<u64> },
    /// A finalized block.
    Block,
}

/// What the epoch manager is told. An epoch is entered with the key material of the ceremony.
#[derive(Clone, Copy, PartialEq, Eq, Structural, Debug)]
pub enum EpochMessage {
    Enter { epoch: u64 },
    Exit { epoch: u64 },
}

/// A ceremony that has key material, and the epoch that it is in.
pub struct Ceremony {
    material: KeyMaterial,
    tracker: EpochTracker,
}

/// Why there is no ceremony.
#[derive(Clone, Copy, PartialEq, Eq, Structural, Debug)]
pub enum CeremonyError {
    /// The genesis names no validators.
    NoValidators,
    /// No validator of the genesis spells a key.
    NoKeys,
}

/// The tips among updates.
pub open spec fn tips_of(updates: Seq<CeremonyUpdate>) -> Seq<Option<u64>> {
    Seq::new(
        updates.len(),
        |i: int|
            match updates[i] {
                CeremonyUpdate::Tip { epoch } => epoch,
                CeremonyUpdate::Block => None,
            },
    )
}

/// What the epoch manager is told of transitions: the new epoch is entered, then the old one left.
pub open spec fn told_of(transitions: Seq<Transition>) -> Seq<EpochMessage>
    decreases transitions.len(),
{
    if transitions.len() == 0 {
        Seq::empty()
    } else {
        let last = transitions.last();
        told_of(transitions.drop_last()) + seq![
            EpochMessage::Enter { epoch: last.enter },
            EpochMessage::Exit { epoch: last.exit },
        ]
    }
}

/// What an update leads to in the epoch.
pub open spec fn told_by(current: u64, update: CeremonyUpdate) -> Seq<EpochMessage> {
    match update {
        CeremonyUpdate::Tip { epoch } => if lies_beyond(epoch, current) {
            seq![
                EpochMessage::Enter { epoch: (current + 1) as u64 },
                EpochMessage::Exit { epoch: current },
            ]
        } else {
            Seq::empty()
        },
        CeremonyUpdate::Block => Seq::empty(),
    }
}

/// All that the epoch manager is told: epoch 0 is entered, then updates follow.
pub open spec fn messages(updates: Seq<CeremonyUpdate>) -> Seq<EpochMessage>
    decreases updates.len(),
{
    if updates.len() == 0 {
        seq![EpochMessage::Enter { epoch: 0 }]
    } else {
        messages(updates.drop_last()) + told_by(
            epoch_after(0, tips_of(updates.drop_last())),
            updates.last(),
        )
    }
}

impl Ceremony {
    pub closed spec fn key_material(self) -> KeyMaterial {
        self.material
    }

    /// The epoch that was entered last.
    pub closed spec fn current(self) -> u64 {
        self.tracker.current
    }

    /// Starts the ceremony from the validators of the genesis, and enters epoch 0.
    pub fn start(
        validators: &Option<Vec<ValidatorConfig>>,
        my_key: PublicKey,
        pre_share: Option<Vec<u8>>,
        seed: &Vec<u8>,
    ) -> (r: Result<(Self, EpochMessage), CeremonyError>)
        requires
            seed@.len() == 32,
            validators matches Some(v) ==> v@.len() <= u32::MAX,
        ensures
            match validators {
                None => r == Err::<(Self, EpochMessage), _>(CeremonyError::NoValidators),
                Some(v) => if v@.len() == 0 {
                    r == Err::<(Self, EpochMessage), _>(CeremonyError::NoValidators)
                } else if forall|i: int|
                    0 <= i < v@.len() ==> !is_key_text((#[trigger] v@[i]).pubkey@) {
                    r == Err::<(Self, EpochMessage), _>(CeremonyError::NoKeys)
                } else {
                    exists|keys: Seq<PublicKey>| #[trigger]
                        keys_of(v@, keys) && (r matches Ok((ceremony, message)) && {
                            &&& is_material(
                                ceremony.key_material(),
                                seed@,
                                keys,
                                my_key,
                                share_bytes(pre_share),
                            )
                            &&& ceremony.current() == 0
                            &&& message == EpochMessage::Enter { epoch: 0 }
                        })
                },
            },
    {
        match start_dkg(validators, my_key, pre_share, seed) {
            DkgStart::NoValidators => Err(CeremonyError::NoValidators),
            DkgStart::NoKeys => Err(CeremonyError::NoKeys),
            DkgStart::Ready(material) => {
                let tracker = EpochTracker::new();
                Ok((Ceremony { material, tracker }, EpochMessage::Enter { epoch: 0 }))
            },
        }
    }

    pub fn material(&self) -> (r: &KeyMaterial)
        ensures
            *r == self.key_material(),
    {
        &self.material
    }

    /// What an update leads to. The key material stays.
    pub fn on_update(&mut self, update: CeremonyUpdate) -> (r: Vec<EpochMessage>)
        ensures
            final(self).key_material() == old(self).key_material(),
            r@ == told_by(old(self).current(), update),
            final(self).current() == if r@.len() > 0 {
                (old(self).current() + 1) as u64
            } else {
                old(self).current()
            },
    {
        let mut told: Vec<EpochMessage> = Vec::new();
        if let CeremonyUpdate::Tip { epoch } = update {
            if let Some(transition) = self.tracker.on_tip(epoch) {
                told.push(EpochMessage::Enter { epoch: transition.enter });
                told.push(EpochMessage::Exit { epoch: transition.exit });
            }
        }
        assert(told@ =~= told_by(old(self).current(), update));
        told
    }
}

/// Whatever updates come, the epoch manager is told first to enter epoch 0, and then, for each tip
/// beyond the epoch entered last, to enter the next and to leave that one. Other updates lead to
/// nothing, so that the messages are those of the epochs in order, without a gap.
pub proof fn law_ceremony_messages(updates: Seq<CeremonyUpdate>)
    ensures
        messages(updates) == seq![EpochMessage::Enter { epoch: 0 }] + told_of(
            transitions_of(0, tips_of(updates)),
        ),
        messages(updates).len() == 1 + 2 * epoch_after(0, tips_of(updates)),
        forall|i: int|
            0 <= i < epoch_after(0, tips_of(updates)) ==> #[trigger] messages(
                updates,
            )[1 + 2 * i] == (EpochMessage::Enter { epoch: (i + 1) as u64 }) && messages(
                updates,
            )[2 + 2 * i] == (EpochMessage::Exit { epoch: i as u64 }),
    decreases updates.len(),
{
    lemma_messages_are_told(updates);
    law_epochs_follow_one_another(0, tips_of(updates));
    lemma_told_in_order(transitions_of(0, tips_of(updates)));
}

proof fn lemma_messages_are_told(updates: Seq<CeremonyUpdate>)
    ensures
        messages(updates) == seq![EpochMessage::Enter { epoch: 0 }] + told_of(
            transitions_of(0, tips_of(updates)),
        ),
    decreases updates.len(),
{
    if updates.len() == 0 {
        assert(messages(updates) =~= seq![EpochMessage::Enter { epoch: 0 }] + told_of(
            transitions_of(0, tips_of(updates)),
        ));
    } else {
        let rest = updates.drop_last();
        lemma_messages_are_told(rest);
        assert(tips_of(updates).drop_last() =~= tips_of(rest));
        let earlier = transitions_of(0, tips_of(rest));
        let all = transitions_of(0, tips_of(updates));
        if all.len() > earlier.len() {
            assert(all.drop_last() =~= earlier);
        }
        assert(messages(updates) =~= seq![EpochMessage::Enter { epoch: 0 }] + told_of(all));
    }
}

proof fn lemma_told_in_order(transitions: Seq<Transition>)
    ensures
        told_of(transitions).len() == 2 * transitions.len(),
        forall|i: int|
            0 <= i < transitions.len() ==> #[trigger] told_of(transitions)[2 * i] == (
            EpochMessage::Enter { epoch: transitions[i].enter }) && told_of(transitions)[2 * i + 1]
                == (EpochMessage::Exit { epoch: transitions[i].exit }),
    decreases transitions.len(),
{
    if transitions.len() > 0 {
        let rest = transitions.drop_last();
        lemma_told_in_order(rest);
        assert forall|i: int| 0 <= i < transitions.len() implies #[trigger] told_of(
            transitions,
        )[2 * i] == (EpochMessage::Enter { epoch: transitions[i].enter }) && told_of(
            transitions,
        )[2 * i + 1] == (EpochMessage::Exit { epoch: transitions[i].exit }) by {
            if i < rest.len() {
                assert(told_of(rest)[2 * i] == (EpochMessage::Enter {
                    epoch: transitions[i].enter,
                }));
            }
        }
    }
}

} // verus!
