//! The epoch manager: which epochs have a consensus engine running, and when one may start.

use vstd::prelude::*;

verus! {

/// What the manager has counted.
#[derive(Clone, Copy, PartialEq, Eq, Structural, Debug)]
pub struct Metrics {
    /// How many epochs are running.
    pub active_epochs: i64,
    /// The epoch started last.
    pub latest_epoch: i64,
    /// The participants of the epoch started last.
    pub latest_participants: i64,
    /// How often this node had a share.
    pub how_often_signer: u64,
    /// How often it had none.
    pub how_often_verifier: u64,
}

/// Why an epoch is not started.
#[derive(Clone, Copy, PartialEq, Eq, Structural, Debug)]
pub enum EnterError {
    /// An epoch as late is running already.
    NotNewer { epoch: u64, latest: u64 },
    /// The share is not one of the participants'.
    ShareMismatch,
    /// A channel of the network could not be opened.
    ChannelClosed,
}

/// How this node takes part in an epoch.
#[derive(Clone, Copy, PartialEq, Eq, Structural, Debug)]
pub enum Role {
    Signer,
    Verifier,
}

/// The running epochs.
pub struct EpochManager {
    active: Vec<u64>,
    metrics: Metrics,
}

/// The decimal digits of a number.
pub open spec fn decimal(n: nat) -> Seq<char>
    decreases n,
{
    if n < 10 {
        seq![('0' as u8 + n) as u8 as char]
    } else {
        decimal(n / 10).push(('0' as u8 + n % 10) as u8 as char)
    }
}

/// `std::format`: the prefix, a label, and the epoch in decimal digits.
#[verifier::external_body]
fn format_partition(prefix: &str, label: &str, epoch: u64) -> (r: String)
    ensures
        r@ == prefix@ + label@ + decimal(epoch as nat),
{
    format!("{prefix}{label}{epoch}")
}

/// The name under which the engine of an epoch keeps its records.
pub fn partition_name(prefix: &str, epoch: u64) -> (r: String)
    ensures
        r@ == prefix@ + "_consensus_epoch_"@ + decimal(epoch as nat),
{
    format_partition(prefix, "_consensus_epoch_", epoch)
}

impl View for EpochManager {
    type V = Set<u64>;

    /// The epochs that are running.
    closed spec fn view(&self) -> Set<u64> {
        self.active@.to_set()
    }
}

/// Whether the epoch lies after all running ones.
pub open spec fn is_newer(running: Set<u64>, epoch: u64) -> bool {
    forall|e: u64| #[trigger] running.contains(e) ==> e < epoch
}

impl EpochManager {
    #[verifier::type_invariant]
    spec fn in_order(self) -> bool {
        &&& forall|i: int, j: int|
            0 <= i < j < self.active@.len() ==> self.active@[i] < self.active@[j]
        &&& counts(self.metrics.active_epochs, self.active@.len())
    }

    pub closed spec fn counted(self) -> Metrics {
        self.metrics
    }

    pub fn new() -> (r: Self)
        ensures
            r@ == Set::<u64>::empty(),
            r.counted() == (Metrics {
                active_epochs: 0,
                latest_epoch: 0,
                latest_participants: 0,
                how_often_signer: 0,
                how_often_verifier: 0,
            }),
    {
        let r = EpochManager {
            active: Vec::new(),
            metrics: Metrics {
                active_epochs: 0,
                latest_epoch: 0,
                latest_participants: 0,
                how_often_signer: 0,
                how_often_verifier: 0,
            },
        };
        assert(r@ =~= Set::<u64>::empty());
        r
    }

    /// What the manager has counted. The gauge of the running epochs shows how many there are.
    pub fn metrics(&self) -> (r: Metrics)
        ensures
            r == self.counted(),
            self@.finite(),
            counts(r.active_epochs, self@.len()),
    {
        proof {
            use_type_invariant(self);
            assert(self.active@.no_duplicates()) by {
                assert forall|i: int, j: int|
                    0 <= i < self.active@.len() && 0 <= j < self.active@.len() && i
                        != j implies self.active@[i] != self.active@[j] by {
                    if i < j {
                        assert(self.active@[i] < self.active@[j]);
                    } else {
                        assert(self.active@[j] < self.active@[i]);
                    }
                }
            }
            self.active@.unique_seq_to_set();
            self.active@.lemma_cardinality_of_set();
        }
        self.metrics
    }

    /// Whether an epoch may start, and as what: as a signer with a share, else as a verifier. An
    /// epoch no later than one that is running is refused.
    pub fn enter(&self, epoch: u64, has_share: bool) -> (r: Result<Role, EnterError>)
        ensures
            match r {
                Ok(role) => is_newer(self@, epoch) && role == if has_share {
                    Role::Signer
                } else {
                    Role::Verifier
                },
                Err(EnterError::NotNewer { epoch: refused, latest }) => {
                    &&& !is_newer(self@, epoch)
                    &&& refused == epoch
                    &&& self@.contains(latest)
                    &&& forall|e: u64| #[trigger] self@.contains(e) ==> e <= latest
                },
                Err(_) => false,
            },
    {
        proof {
            use_type_invariant(self);
        }
        let n: usize = self.active.len();
        if n > 0 {
            let latest: u64 = self.active[n - 1];
            assert forall|e: u64| #[trigger] self@.contains(e) implies e <= latest by {
                let i = choose|i: int| 0 <= i < self.active@.len() && self.active@[i] == e;
                if i < n - 1 {
                    assert(self.active@[i] < self.active@[n - 1]);
                }
            }
            assert(self@.contains(latest)) by {
                assert(self.active@[n - 1] == latest);
            }
            if epoch <= latest {
                return Err(EnterError::NotNewer { epoch, latest });
            }
        }
        if has_share {
            Ok(Role::Signer)
        } else {
            Ok(Role::Verifier)
        }
    }

    /// Notes that the engine of an epoch has started.
    pub fn started(&mut self, epoch: u64, participants: usize, role: Role)
        requires
            is_newer(old(self)@, epoch),
        ensures
            final(self)@ == old(self)@.insert(epoch),
            final(self).counted().latest_epoch == epoch as i64,
            final(self).counted().latest_participants == participants as i64,
            final(self).counted().active_epochs == wrapping_next_i64(
                old(self).counted().active_epochs,
            ),
            final(self).counted().how_often_signer == if role is Signer {
                wrapping_next_u64(old(self).counted().how_often_signer)
            } else {
                old(self).counted().how_often_signer
            },
            final(self).counted().how_often_verifier == if role is Verifier {
                wrapping_next_u64(old(self).counted().how_often_verifier)
            } else {
                old(self).counted().how_often_verifier
            },
    {
        proof {
            use_type_invariant(&*self);
        }
        let ghost before = self.active@;
        let ghost running = self@;
        let mut taken = EpochManager::new();
        std::mem::swap(&mut taken, self);
        let EpochManager { mut active, metrics: counted } = taken;
        active.push(epoch);
        proof {
            assert forall|i: int, j: int| 0 <= i < j < active@.len() implies active@[i]
                < active@[j] by {
                if j == before.len() {
                    assert(before.to_set().contains(before[i]));
                } else {
                    assert(before[i] < before[j]);
                }
            }
            assert(running == before.to_set());
            assert forall|e: u64| active@.to_set().contains(e) <==> running.insert(epoch).contains(
                e,
            ) by {
                assert(active@.contains(e) <==> before.contains(e) || e == epoch) by {
                    if before.contains(e) {
                        let i = choose|i: int| 0 <= i < before.len() && before[i] == e;
                        assert(active@[i] == e);
                    }
                    if e == epoch {
                        assert(active@[before.len() as int] == e);
                    }
                    if active@.contains(e) && e != epoch {
                        let i = choose|i: int| 0 <= i < active@.len() && active@[i] == e;
                        assert(before[i] == e);
                    }
                }
            }
            assert(active@.to_set() =~= running.insert(epoch));
        }
        let (signer, verifier) = match role {
            Role::Signer => (counted.how_often_signer.wrapping_add(1), counted.how_often_verifier),
            Role::Verifier => (
                counted.how_often_signer,
                counted.how_often_verifier.wrapping_add(1),
            ),
        };
        let metrics = Metrics {
            active_epochs: counted.active_epochs.wrapping_add(1),
            latest_epoch: epoch as i64,
            latest_participants: participants as i64,
            how_often_signer: signer,
            how_often_verifier: verifier,
        };
        *self = EpochManager { active, metrics };
    }

    /// Notes that an epoch has ended, and says whether its engine was running: then the engine is to
    /// be stopped, and one epoch less is running.
    pub fn exit(&mut self, epoch: u64) -> (r: bool)
        ensures
            r == old(self)@.contains(epoch),
            final(self)@ == old(self)@.remove(epoch),
            final(self).counted() == (Metrics {
                active_epochs: if r {
                    wrapping_last_i64(old(self).counted().active_epochs)
                } else {
                    old(self).counted().active_epochs
                },
                ..old(self).counted()
            }),
    {
        proof {
            use_type_invariant(&*self);
        }
        let ghost before = self.active@;
        let mut i: usize = 0;
        while i < self.active.len()
            invariant
                i <= self.active@.len(),
                self.active@ == before,
                *self == *old(self),
                forall|j: int| 0 <= j < i ==> self.active@[j] != epoch,
                forall|a: int, b: int| 0 <= a < b < before.len() ==> before[a] < before[b],
                counts(self.metrics.active_epochs, before.len()),
            decreases self.active@.len() - i,
        {
            if self.active[i] == epoch {
                let mut taken = EpochManager::new();
                std::mem::swap(&mut taken, self);
                let EpochManager { mut active, metrics: counted } = taken;
                active.remove(i);
                proof {
                    assert(active@ == before.remove(i as int));
                    assert forall|e: u64| active@.contains(e) <==> before.contains(e) && e
                        != epoch by {
                        if before.contains(e) && e != epoch {
                            let j = choose|j: int| 0 <= j < before.len() && before[j] == e;
                            if j < i {
                                assert(active@[j] == e);
                            } else {
                                assert(active@[j - 1] == e);
                            }
                        }
                        if active@.contains(e) {
                            let j = choose|j: int| 0 <= j < active@.len() && active@[j] == e;
                            if j < i {
                                assert(before[j] == e && before[j] < before[i as int]);
                            } else {
                                assert(before[j + 1] == e && before[i as int] < before[j + 1]);
                            }
                        }
                    }
                    assert(active@.to_set() =~= before.to_set().remove(epoch));
                    assert(before.contains(epoch)) by {
                        assert(before[i as int] == epoch);
                    }
                }
                let metrics = Metrics {
                    active_epochs: counted.active_epochs.wrapping_sub(1),
                    ..counted
                };
                *self = EpochManager { active, metrics };
                return true;
            }
            i = i + 1;
        }
        assert(self@ =~= self@.remove(epoch));
        false
    }
}

/// Whether the gauge shows the number, which it does up to a multiple of its range.
pub open spec fn counts(gauge: i64, n: nat) -> bool {
    (gauge - n) % 0x1_0000_0000_0000_0000 == 0
}

/// The next count of a gauge, which starts over at its limit.
pub open spec fn wrapping_next_i64(n: i64) -> i64 {
    if n == i64::MAX {
        i64::MIN
    } else {
        (n + 1) as i64
    }
}

/// The count of a gauge before, which starts over at its limit.
pub open spec fn wrapping_last_i64(n: i64) -> i64 {
    if n == i64::MIN {
        i64::MAX
    } else {
        (n - 1) as i64
    }
}

/// The next count of a counter, which starts over at its limit.
pub open spec fn wrapping_next_u64(n: u64) -> u64 {
    if n == u64::MAX {
        0
    } else {
        (n + 1) as u64
    }
}

/// Epochs start in increasing order: where one is let in, every running epoch is older, and it
/// cannot be let in a second time while it runs.
pub proof fn law_running_epochs_do_not_start_again(running: Set<u64>, epoch: u64, again: u64)
    requires
        is_newer(running, epoch),
        again <= epoch,
    ensures
        !running.contains(epoch),
        !is_newer(running.insert(epoch), again),
{
    assert(running.insert(epoch).contains(epoch));
}

} // verus!
