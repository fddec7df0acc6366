use vstd::prelude::*;
use crate::principal::Principal;
use crate::assoc::{
    map_of, distinct_keys, lemma_map_of_index, lemma_map_of_absent, lemma_map_of_push,
    lemma_map_of_update,
};

verus! {

/// A registered compute provider: service metadata, custodied stake, and an
/// admin-managed reputation score.
#[derive(Debug, PartialEq, Eq)]
pub struct ProviderProfile {
    pub provider: Principal,
    pub endpoint: String,
    pub compute_units: u64,
    pub hourly_rate: u128,
    pub registered_at: u64,
    pub is_active: bool,
    pub stake: u128,
    pub reputation_score: u32,
}

impl Clone for ProviderProfile {
    fn clone(&self) -> (r: Self)
        ensures
            r == *self,
    {
        ProviderProfile {
            provider: self.provider,
            endpoint: self.endpoint.clone(),
            compute_units: self.compute_units,
            hourly_rate: self.hourly_rate,
            registered_at: self.registered_at,
            is_active: self.is_active,
            stake: self.stake,
            reputation_score: self.reputation_score,
        }
    }
}

/// The highest reputation score a provider can hold.
pub const MAX_REPUTATION: u32 = 1000;

/// Emitted when a provider registers.
#[derive(Clone, Copy, PartialEq, Eq, Structural, Debug)]
pub struct ProviderRegistered {
    pub provider: Principal,
    pub stake: u128,
    pub compute_units: u64,
}

/// Emitted when a provider updates its endpoint and rate.
#[derive(PartialEq, Eq, Debug)]
pub struct ProviderUpdated {
    pub provider: Principal,
    pub endpoint: String,
    pub hourly_rate: u128,
}

/// Emitted when a provider changes its active flag.
#[derive(Clone, Copy, PartialEq, Eq, Structural, Debug)]
pub struct ProviderActiveChanged {
    pub provider: Principal,
    pub is_active: bool,
}

/// Emitted when a provider adds stake.
#[derive(Clone, Copy, PartialEq, Eq, Structural, Debug)]
pub struct StakeAdded {
    pub provider: Principal,
    pub amount: u128,
}

/// Emitted when a provider withdraws stake.
#[derive(Clone, Copy, PartialEq, Eq, Structural, Debug)]
pub struct StakeWithdrawn {
    pub provider: Principal,
    pub amount: u128,
}

/// Emitted when the admin sets a provider's reputation.
#[derive(Clone, Copy, PartialEq, Eq, Structural, Debug)]
pub struct ReputationUpdated {
    pub provider: Principal,
    pub score: u32,
}

/// The event a successful registry operation emits.
#[derive(PartialEq, Eq, Debug)]
pub enum ProviderEvent {
    Registered(ProviderRegistered),
    Updated(ProviderUpdated),
    ActiveChanged(ProviderActiveChanged),
    StakeAdded(StakeAdded),
    StakeWithdrawn(StakeWithdrawn),
    ReputationUpdated(ReputationUpdated),
}

/// The registry after a provider sets its active flag: unchanged when the
/// caller is not registered, otherwise the caller's profile with the flag
/// replaced.
pub open spec fn with_active(
    m: Map<Principal, ProviderProfile>,
    caller: Principal,
    is_active: bool,
) -> Map<Principal, ProviderProfile> {
    if m.contains_key(caller) {
        m.insert(caller, ProviderProfile { is_active, ..m[caller] })
    } else {
        m
    }
}

/// Setting the active flag twice to the same value equals setting it once.
pub proof fn lemma_set_active_idempotent(
    m: Map<Principal, ProviderProfile>,
    caller: Principal,
    is_active: bool,
)
    ensures
        with_active(with_active(m, caller, is_active), caller, is_active) == with_active(
            m,
            caller,
            is_active,
        ),
{
    if m.contains_key(caller) {
        assert(with_active(with_active(m, caller, is_active), caller, is_active) =~= with_active(
            m,
            caller,
            is_active,
        ));
    }
}

/// The provider registry: one profile per principal, stake custody, and the
/// minimum stake a registration must attach.
pub struct ComputeProviderRegistry {
    providers: Vec<(Principal, ProviderProfile)>,
    min_stake: u128,
    admin: Principal,
    provider_count: u64,
    events: Vec<ProviderEvent>,
}

impl View for ComputeProviderRegistry {
    type V = Map<Principal, ProviderProfile>;

    closed spec fn view(&self) -> Map<Principal, ProviderProfile> {
        map_of(self.providers@)
    }
}

impl ComputeProviderRegistry {
    /// The minimum stake a registration must attach.
    pub closed spec fn spec_min_stake(&self) -> u128 {
        self.min_stake
    }

    /// The principal that constructed the registry.
    pub closed spec fn spec_admin(&self) -> Principal {
        self.admin
    }

    /// The number of registered providers.
    pub closed spec fn spec_provider_count(&self) -> u64 {
        self.provider_count
    }

    /// Every event emitted so far, in emission order.
    pub closed spec fn spec_events(&self) -> Seq<ProviderEvent> {
        self.events@
    }

    /// Well-formedness: one profile per principal, each profile keyed by its
    /// own principal, the count matching the store, and every reputation
    /// within bounds.
    pub closed spec fn wf(&self) -> bool {
        &&& distinct_keys(self.providers@)
        &&& forall|i: int|
            0 <= i < self.providers@.len() ==> (#[trigger] self.providers@[i]).1.provider
                == self.providers@[i].0
        &&& forall|i: int|
            0 <= i < self.providers@.len() ==> (#[trigger] self.providers@[i]).1.reputation_score
                <= MAX_REPUTATION
        &&& self.provider_count == self.providers@.len()
    }

    /// Creates an empty registry administered by `caller`.
    pub fn new(min_stake: u128, caller: Principal) -> (s: Self)
        ensures
            s.wf(),
            s@ == Map::<Principal, ProviderProfile>::empty(),
            s.spec_min_stake() == min_stake,
            s.spec_admin() == caller,
            s.spec_provider_count() == 0,
            s.spec_events() == Seq::<ProviderEvent>::empty(),
    {
        let s = ComputeProviderRegistry {
            providers: Vec::new(),
            min_stake,
            admin: caller,
            provider_count: 0,
            events: Vec::new(),
        };
        proof {
            assert(s@ =~= Map::<Principal, ProviderProfile>::empty());
        }
        s
    }

    /// The position of the profile for `p`, if one exists.
    fn find_index(&self, p: &Principal) -> (r: Option<usize>)
        ensures
            match r {
                Some(i) => i < self.providers@.len() && self.providers@[i as int].0 == *p,
                None => forall|i: int|
                    0 <= i < self.providers@.len() ==> (#[trigger] self.providers@[i]).0 != *p,
            },
    {
        let mut i: usize = 0;
        while i < self.providers.len()
            invariant
                i <= self.providers@.len(),
                forall|k: int| 0 <= k < i ==> (#[trigger] self.providers@[k]).0 != *p,
            decreases self.providers@.len() - i,
        {
            if self.providers[i].0 == *p {
                return Some(i);
            }
            i = i + 1;
        }
        None
    }

    /// Registers the caller as a provider with the attached stake.  Succeeds
    /// exactly when the stake meets the minimum and the caller is not yet
    /// registered; the new profile is active with reputation 100.
    pub fn register_provider(
        &mut self,
        caller: Principal,
        attached_stake: u128,
        now: u64,
        endpoint: String,
        compute_units: u64,
        hourly_rate: u128,
    ) -> (r: bool)
        requires
            old(self).wf(),
        ensures
            final(self).wf(),
            r == (attached_stake >= old(self).spec_min_stake() && !old(self)@.contains_key(caller)),
            !r ==> *final(self) == *old(self),
            r ==> final(self)@ == old(self)@.insert(
                caller,
                (ProviderProfile {
                    provider: caller,
                    endpoint: endpoint,
                    compute_units: compute_units,
                    hourly_rate: hourly_rate,
                    registered_at: now,
                    is_active: true,
                    stake: attached_stake,
                    reputation_score: 100,
                }),
            ),
            r ==> final(self).spec_provider_count() == old(self).spec_provider_count() + 1,
            r ==> final(self).spec_events() == old(self).spec_events().push(
                ProviderEvent::Registered(
                    (ProviderRegistered {
                        provider: caller,
                        stake: attached_stake,
                        compute_units: compute_units,
                    }),
                ),
            ),
            final(self).spec_min_stake() == old(self).spec_min_stake(),
            final(self).spec_admin() == old(self).spec_admin(),
    {
        if attached_stake < self.min_stake {
            return false;
        }
        match self.find_index(&caller) {
            Some(i) => {
                proof {
                    lemma_map_of_index(self.providers@, i as int);
                }
                false
            },
            None => {
                proof {
                    lemma_map_of_absent(self.providers@, caller);
                }
                let profile = ProviderProfile {
                    provider: caller,
                    endpoint,
                    compute_units,
                    hourly_rate,
                    registered_at: now,
                    is_active: true,
                    stake: attached_stake,
                    reputation_score: 100,
                };
                let ev = ProviderEvent::Registered(
                    ProviderRegistered {
                        provider: caller,
                        stake: attached_stake,
                        compute_units,
                    },
                );
                self.providers.push((caller, profile));
                self.provider_count = self.providers.len() as u64;
                self.events.push(ev);
                proof {
                    lemma_map_of_push(old(self).providers@, caller, profile);
                    assert forall|a: int, b: int|
                        0 <= a < b < self.providers@.len() implies (#[trigger] self.providers@[
                        a]).0 != (#[trigger] self.providers@[b]).0 by {
                        assert(self.providers@[a] == old(self).providers@[a]);
                        if b < self.providers@.len() - 1 {
                            assert(self.providers@[b] == old(self).providers@[b]);
                        }
                    }
                }
                true
            },
        }
    }

    /// Overwrites the caller's endpoint and hourly rate, leaving compute
    /// units and stake unchanged.  Succeeds exactly when the caller is
    /// registered.
    pub fn update_provider(&mut self, caller: Principal, endpoint: String, hourly_rate: u128) -> (r:
        bool)
        requires
            old(self).wf(),
        ensures
            final(self).wf(),
            r == old(self)@.contains_key(caller),
            !r ==> *final(self) == *old(self),
            r ==> final(self)@ == old(self)@.insert(
                caller,
                (ProviderProfile { endpoint: endpoint, hourly_rate: hourly_rate, ..old(self)@[
                    caller] }),
            ),
            r ==> final(self).spec_events() == old(self).spec_events().push(
                ProviderEvent::Updated(
                    (ProviderUpdated {
                        provider: caller,
                        endpoint: endpoint,
                        hourly_rate: hourly_rate,
                    }),
                ),
            ),
            final(self).spec_min_stake() == old(self).spec_min_stake(),
            final(self).spec_admin() == old(self).spec_admin(),
            final(self).spec_provider_count() == old(self).spec_provider_count(),
    {
        match self.find_index(&caller) {
            Some(i) => {
                proof {
                    lemma_map_of_index(self.providers@, i as int);
                }
                let profile = ProviderProfile {
                    endpoint: endpoint.clone(),
                    hourly_rate,
                    ..self.providers[i].1.clone()
                };
                self.providers[i] = (caller, profile);
                self.events.push(
                    ProviderEvent::Updated(
                        ProviderUpdated { provider: caller, endpoint, hourly_rate },
                    ),
                );
                proof {
                    lemma_map_of_update(old(self).providers@, i as int, self.providers@[i as int].1);
                }
                true
            },
            None => {
                proof {
                    lemma_map_of_absent(self.providers@, caller);
                }
                false
            },
        }
    }

    /// Sets the caller's active flag.  Succeeds exactly when the caller is
    /// registered; applying it twice with the same flag equals applying it
    /// once.
    pub fn set_active(&mut self, caller: Principal, is_active: bool) -> (r: bool)
        requires
            old(self).wf(),
        ensures
            final(self).wf(),
            r == old(self)@.contains_key(caller),
            !r ==> *final(self) == *old(self),
            final(self)@ == with_active(old(self)@, caller, is_active),
            r ==> final(self).spec_events() == old(self).spec_events().push(
                ProviderEvent::ActiveChanged(
                    (ProviderActiveChanged { provider: caller, is_active: is_active }),
                ),
            ),
            final(self).spec_min_stake() == old(self).spec_min_stake(),
            final(self).spec_admin() == old(self).spec_admin(),
            final(self).spec_provider_count() == old(self).spec_provider_count(),
    {
        match self.find_index(&caller) {
            Some(i) => {
                proof {
                    lemma_map_of_index(self.providers@, i as int);
                }
                let profile = ProviderProfile { is_active, ..self.providers[i].1.clone() };
                self.providers[i] = (caller, profile);
                self.events.push(
                    ProviderEvent::ActiveChanged(
                        ProviderActiveChanged { provider: caller, is_active },
                    ),
                );
                proof {
                    lemma_map_of_update(old(self).providers@, i as int, self.providers@[i as int].1);
                }
                true
            },
            None => {
                proof {
                    lemma_map_of_absent(self.providers@, caller);
                }
                false
            },
        }
    }

    /// Adds the attached amount to the caller's stake, saturating at the
    /// numeric bound.  Succeeds exactly when the amount is positive and the
    /// caller is registered.
    pub fn add_stake(&mut self, caller: Principal, attached_amount: u128) -> (r: bool)
        requires
            old(self).wf(),
        ensures
            final(self).wf(),
            r == (attached_amount > 0 && old(self)@.contains_key(caller)),
            !r ==> *final(self) == *old(self),
            r ==> final(self)@ == old(self)@.insert(
                caller,
                (ProviderProfile {
                    stake: if old(self)@[caller].stake + attached_amount > u128::MAX {
                        u128::MAX
                    } else {
                        (old(self)@[caller].stake + attached_amount) as u128
                    },
                    ..old(self)@[caller]
                }),
            ),
            r ==> final(self).spec_events() == old(self).spec_events().push(
                ProviderEvent::StakeAdded(
                    (StakeAdded { provider: caller, amount: attached_amount }),
                ),
            ),
            final(self).spec_min_stake() == old(self).spec_min_stake(),
            final(self).spec_admin() == old(self).spec_admin(),
            final(self).spec_provider_count() == old(self).spec_provider_count(),
    {
        if attached_amount == 0 {
            return false;
        }
        match self.find_index(&caller) {
            Some(i) => {
                proof {
                    lemma_map_of_index(self.providers@, i as int);
                }
                let new_stake = self.providers[i].1.stake.saturating_add(attached_amount);
                let profile = ProviderProfile { stake: new_stake, ..self.providers[i].1.clone() };
                self.providers[i] = (caller, profile);
                self.events.push(
                    ProviderEvent::StakeAdded(
                        StakeAdded { provider: caller, amount: attached_amount },
                    ),
                );
                proof {
                    lemma_map_of_update(old(self).providers@, i as int, self.providers@[i as int].1);
                }
                true
            },
            None => {
                proof {
                    lemma_map_of_absent(self.providers@, caller);
                }
                false
            },
        }
    }

    /// Whether a stake withdrawal of `amount` is currently permitted for
    /// `caller`: registered, inactive or the admin, and sufficiently staked.
    pub fn can_withdraw_stake(&self, caller: Principal, amount: u128) -> (r: bool)
        requires
            self.wf(),
        ensures
            r == (self@.contains_key(caller) && (!self@[caller].is_active || caller
                == self.spec_admin()) && self@[caller].stake >= amount),
    {
        match self.find_index(&caller) {
            Some(i) => {
                proof {
                    lemma_map_of_index(self.providers@, i as int);
                }
                let p = &self.providers[i].1;
                (!p.is_active || caller == self.admin) && p.stake >= amount
            },
            None => {
                proof {
                    lemma_map_of_absent(self.providers@, caller);
                }
                false
            },
        }
    }

    /// Withdraws stake.  The runtime attempts the outward transfer first and
    /// reports its outcome in `transfer_accepted`; on a rejected transfer
    /// nothing changes.  Succeeds exactly when the caller is registered,
    /// inactive or the admin, sufficiently staked, and the transfer was
    /// accepted.
    pub fn withdraw_stake(&mut self, caller: Principal, amount: u128, transfer_accepted: bool) -> (r:
        bool)
        requires
            old(self).wf(),
        ensures
            final(self).wf(),
            r == (old(self)@.contains_key(caller) && (!old(self)@[caller].is_active || caller
                == old(self).spec_admin()) && old(self)@[caller].stake >= amount
                && transfer_accepted),
            !r ==> *final(self) == *old(self),
            r ==> final(self)@ == old(self)@.insert(
                caller,
                (ProviderProfile {
                    stake: (old(self)@[caller].stake - amount) as u128,
                    ..old(self)@[caller]
                }),
            ),
            r ==> final(self).spec_events() == old(self).spec_events().push(
                ProviderEvent::StakeWithdrawn(
                    (StakeWithdrawn { provider: caller, amount: amount }),
                ),
            ),
            final(self).spec_min_stake() == old(self).spec_min_stake(),
            final(self).spec_admin() == old(self).spec_admin(),
            final(self).spec_provider_count() == old(self).spec_provider_count(),
    {
        match self.find_index(&caller) {
            Some(i) => {
                proof {
                    lemma_map_of_index(self.providers@, i as int);
                }
                let eligible = {
                    let p = &self.providers[i].1;
                    (!p.is_active || caller == self.admin) && p.stake >= amount
                };
                if eligible && transfer_accepted {
                    let new_stake = self.providers[i].1.stake - amount;
                    let profile = ProviderProfile {
                        stake: new_stake,
                        ..self.providers[i].1.clone()
                    };
                    self.providers[i] = (caller, profile);
                    self.events.push(
                        ProviderEvent::StakeWithdrawn(
                            StakeWithdrawn { provider: caller, amount },
                        ),
                    );
                    proof {
                        lemma_map_of_update(old(self).providers@, i as int, self.providers@[i as int].1);
                    }
                    true
                } else {
                    false
                }
            },
            None => {
                proof {
                    lemma_map_of_absent(self.providers@, caller);
                }
                false
            },
        }
    }

    /// Sets a provider's reputation, clamped to the bound.  Succeeds exactly
    /// when the caller is the admin and the provider is registered.
    pub fn set_reputation(&mut self, caller: Principal, provider: Principal, score: u32) -> (r:
        bool)
        requires
            old(self).wf(),
        ensures
            final(self).wf(),
            r == (caller == old(self).spec_admin() && old(self)@.contains_key(provider)),
            !r ==> *final(self) == *old(self),
            r ==> final(self)@ == old(self)@.insert(
                provider,
                (ProviderProfile {
                    reputation_score: if score > MAX_REPUTATION {
                        MAX_REPUTATION
                    } else {
                        score
                    },
                    ..old(self)@[provider]
                }),
            ),
            r ==> final(self).spec_events() == old(self).spec_events().push(
                ProviderEvent::ReputationUpdated(
                    (ReputationUpdated {
                        provider: provider,
                        score: if score > MAX_REPUTATION {
                            MAX_REPUTATION
                        } else {
                            score
                        },
                    }),
                ),
            ),
            final(self).spec_min_stake() == old(self).spec_min_stake(),
            final(self).spec_admin() == old(self).spec_admin(),
            final(self).spec_provider_count() == old(self).spec_provider_count(),
    {
        if !(caller == self.admin) {
            return false;
        }
        match self.find_index(&provider) {
            Some(i) => {
                proof {
                    lemma_map_of_index(self.providers@, i as int);
                }
                let clamped = if score > MAX_REPUTATION {
                    MAX_REPUTATION
                } else {
                    score
                };
                let profile = ProviderProfile {
                    reputation_score: clamped,
                    ..self.providers[i].1.clone()
                };
                self.providers[i] = (provider, profile);
                self.events.push(
                    ProviderEvent::ReputationUpdated(
                        ReputationUpdated { provider, score: clamped },
                    ),
                );
                proof {
                    lemma_map_of_update(old(self).providers@, i as int, self.providers@[i as int].1);
                }
                true
            },
            None => {
                proof {
                    lemma_map_of_absent(self.providers@, provider);
                }
                false
            },
        }
    }

    /// Returns the profile registered for `provider`, if any.
    pub fn get_provider(&self, provider: Principal) -> (r: Option<ProviderProfile>)
        requires
            self.wf(),
        ensures
            r == if self@.contains_key(provider) {
                Some(self@[provider])
            } else {
                None::<ProviderProfile>
            },
    {
        match self.find_index(&provider) {
            Some(i) => {
                proof {
                    lemma_map_of_index(self.providers@, i as int);
                }
                Some(self.providers[i].1.clone())
            },
            None => {
                proof {
                    lemma_map_of_absent(self.providers@, provider);
                }
                None
            },
        }
    }

    /// The principal that constructed the registry.
    pub fn get_admin(&self) -> (r: Principal)
        ensures
            r == self.spec_admin(),
    {
        self.admin
    }

    /// The number of registered providers.
    pub fn get_provider_count(&self) -> (r: u64)
        ensures
            r == self.spec_provider_count(),
    {
        self.provider_count
    }

    /// The minimum stake a registration must attach.
    pub fn get_min_stake(&self) -> (r: u128)
        ensures
            r == self.spec_min_stake(),
    {
        self.min_stake
    }

    /// Changes the minimum stake.  Succeeds exactly for the admin; any other
    /// caller leaves the registry unchanged.
    pub fn set_min_stake(&mut self, caller: Principal, new_min_stake: u128) -> (r: bool)
        requires
            old(self).wf(),
        ensures
            final(self).wf(),
            r == (caller == old(self).spec_admin()),
            !r ==> *final(self) == *old(self),
            r ==> final(self).spec_min_stake() == new_min_stake,
            final(self)@ == old(self)@,
            final(self).spec_events() == old(self).spec_events(),
            final(self).spec_admin() == old(self).spec_admin(),
            final(self).spec_provider_count() == old(self).spec_provider_count(),
    {
        if caller == self.admin {
            self.min_stake = new_min_stake;
            true
        } else {
            false
        }
    }

    /// Every event emitted so far, in emission order.
    pub fn get_events(&self) -> (r: &Vec<ProviderEvent>)
        ensures
            r@ == self.spec_events(),
    {
        &self.events
    }
}

} // verus!
