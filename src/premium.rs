use std::collections::HashMap;
use vstd::prelude::*;
use crate::types::{Address, ContractError, texts, copy_texts, same_text};

verus! {

broadcast use vstd::std_specs::hash::group_hash_axioms;

/// Seconds in one day.
pub const SECONDS_PER_DAY: u64 = 86400;

/// The lowest and highest subscription tiers (basic, premium, VIP).
pub const MIN_TIER: u32 = 1;
pub const MAX_TIER: u32 = 3;

/// Length of the subscription that `upgrade_tier` opens for a user without one.
pub const DEFAULT_DURATION_DAYS: u32 = 30;

/// A catalog entry: a feature unlocked from a given tier upward.
#[derive(Debug)]
pub struct PremiumFeature {
    pub name: String,
    pub description: String,
    pub tier_required: u32,
    pub price: u32,
}

pub ghost struct FeatureView {
    pub name: Seq<char>,
    pub description: Seq<char>,
    pub tier_required: u32,
    pub price: u32,
}

impl View for PremiumFeature {
    type V = FeatureView;

    open spec fn view(&self) -> FeatureView {
        FeatureView {
            name: self.name@,
            description: self.description@,
            tier_required: self.tier_required,
            price: self.price,
        }
    }
}

impl PremiumFeature {
    pub fn duplicate(&self) -> (r: PremiumFeature)
        ensures
            r@ == self@,
    {
        PremiumFeature {
            name: self.name.clone(),
            description: self.description.clone(),
            tier_required: self.tier_required,
            price: self.price,
        }
    }
}

/// One user's subscription. `features` is a snapshot of the catalog taken
/// when the tier was last set; access checks read the live catalog instead.
#[derive(Debug)]
pub struct PremiumSubscription {
    pub user: Address,
    pub tier: u32,
    pub start_date: u64,
    pub end_date: u64,
    pub features: Vec<String>,
}

pub ghost struct SubscriptionView {
    pub user: Address,
    pub tier: u32,
    pub start_date: u64,
    pub end_date: u64,
    pub features: Seq<Seq<char>>,
}

impl View for PremiumSubscription {
    type V = SubscriptionView;

    open spec fn view(&self) -> SubscriptionView {
        SubscriptionView {
            user: self.user,
            tier: self.tier,
            start_date: self.start_date,
            end_date: self.end_date,
            features: texts(self.features@),
        }
    }
}

impl PremiumSubscription {
    pub fn duplicate(&self) -> (r: PremiumSubscription)
        ensures
            r@ == self@,
    {
        PremiumSubscription {
            user: self.user,
            tier: self.tier,
            start_date: self.start_date,
            end_date: self.end_date,
            features: copy_texts(&self.features),
        }
    }
}

/// Where a user stands, computed from the stored record and the time.
#[derive(Clone, Copy, Debug, PartialEq, Eq, Structural)]
pub enum SubscriptionStatus {
    NoSubscription,
    Active,
    Expired,
}

/// Whether `subscribe` refuses this tier and duration.
pub open spec fn subscribe_fails(tier: u32, days: u32) -> bool {
    !(valid_tier(tier) && days > 0)
}

/// Whether `upgrade_tier` refuses this tier.
pub open spec fn upgrade_fails(tier: u32) -> bool {
    !valid_tier(tier)
}

pub open spec fn valid_tier(tier: u32) -> bool {
    MIN_TIER <= tier <= MAX_TIER
}

/// The end of a period of `days` days from `start`, capped at the largest time.
pub open spec fn period_end(start: u64, days: u32) -> u64 {
    if start + days * SECONDS_PER_DAY > u64::MAX {
        u64::MAX
    } else {
        (start + days * SECONDS_PER_DAY) as u64
    }
}

/// Names of the catalog's features open to `tier`, in catalog order.
pub open spec fn tier_feature_names(catalog: Seq<FeatureView>, tier: u32) -> Seq<Seq<char>>
    decreases catalog.len(),
{
    if catalog.len() == 0 {
        Seq::empty()
    } else {
        let before = tier_feature_names(catalog.drop_last(), tier);
        if catalog.last().tier_required <= tier {
            before.push(catalog.last().name)
        } else {
            before
        }
    }
}

/// The tier that the first catalog entry named `name` requires, if any.
pub open spec fn required_tier(catalog: Seq<FeatureView>, name: Seq<char>) -> Option<u32>
    decreases catalog.len(),
{
    if catalog.len() == 0 {
        None
    } else {
        match required_tier(catalog.drop_last(), name) {
            Some(t) => Some(t),
            None => if catalog.last().name == name {
                Some(catalog.last().tier_required)
            } else {
                None
            },
        }
    }
}

/// Whether a subscription record gives access to feature `name` at time `now`.
pub open spec fn grants(
    sub: Option<SubscriptionView>,
    catalog: Seq<FeatureView>,
    name: Seq<char>,
    now: u64,
) -> bool {
    match sub {
        None => false,
        Some(s) => now <= s.end_date && match required_tier(catalog, name) {
            Some(t) => s.tier >= t,
            None => false,
        },
    }
}

pub open spec fn status_of(sub: Option<SubscriptionView>, now: u64) -> SubscriptionStatus {
    match sub {
        None => SubscriptionStatus::NoSubscription,
        Some(s) => if now > s.end_date {
            SubscriptionStatus::Expired
        } else {
            SubscriptionStatus::Active
        },
    }
}

/// The record that `subscribe` stores for `user`.
pub open spec fn subscribed(
    catalog: Seq<FeatureView>,
    user: Address,
    tier: u32,
    days: u32,
    now: u64,
) -> SubscriptionView {
    SubscriptionView {
        user,
        tier,
        start_date: now,
        end_date: period_end(now, days),
        features: tier_feature_names(catalog, tier),
    }
}

/// The record that `upgrade_tier` stores, given the user's prior record.
pub open spec fn upgraded(
    catalog: Seq<FeatureView>,
    prior: Option<SubscriptionView>,
    user: Address,
    tier: u32,
    now: u64,
) -> SubscriptionView {
    match prior {
        Some(s) => SubscriptionView { tier, features: tier_feature_names(catalog, tier), ..s },
        None => subscribed(catalog, user, tier, DEFAULT_DURATION_DAYS, now),
    }
}

/// The record that `extend_subscription` stores, given the user's prior record.
pub open spec fn extended(
    catalog: Seq<FeatureView>,
    prior: Option<SubscriptionView>,
    user: Address,
    days: u32,
    now: u64,
) -> SubscriptionView {
    match prior {
        Some(s) => SubscriptionView { end_date: period_end(s.end_date, days), ..s },
        None => subscribed(catalog, user, MIN_TIER, days, now),
    }
}

/// The catalog that `initialize` installs.
pub open spec fn default_catalog() -> Seq<FeatureView> {
    seq![
        FeatureView {
            name: "advanced_matching"@,
            description: "Advanced matching algorithm"@,
            tier_required: 2,
            price: 100,
        },
        FeatureView {
            name: "unlimited_messages"@,
            description: "Unlimited messaging"@,
            tier_required: 2,
            price: 50,
        },
        FeatureView {
            name: "priority_support"@,
            description: "Priority customer support"@,
            tier_required: 3,
            price: 200,
        },
        FeatureView {
            name: "analytics"@,
            description: "Profile analytics and insights"@,
            tier_required: 3,
            price: 150,
        },
    ]
}

proof fn lemma_required_tier_prefix(catalog: Seq<FeatureView>, name: Seq<char>, i: int)
    requires
        0 <= i <= catalog.len(),
        required_tier(catalog.take(i), name) is Some,
    ensures
        required_tier(catalog, name) == required_tier(catalog.take(i), name),
    decreases catalog.len(),
{
    if i < catalog.len() {
        assert(catalog.drop_last().take(i) == catalog.take(i));
        lemma_required_tier_prefix(catalog.drop_last(), name, i);
    } else {
        assert(catalog.take(i) == catalog);
    }
}

/// The time `days` days after `start`, capped at the largest time.
fn end_after(start: u64, days: u32) -> (r: u64)
    ensures
        r == period_end(start, days),
{
    let span: u64 = days as u64 * SECONDS_PER_DAY;
    if start > u64::MAX - span {
        u64::MAX
    } else {
        start + span
    }
}

/// Once the time has passed the end of a user's subscription, no feature of
/// any tier is open to that user.
pub proof fn expired_subscription_grants_nothing(
    c: PremiumContract,
    user: Address,
    feature_name: Seq<char>,
    now: u64,
)
    requires
        c.subscription_of(user) is Some,
        now > c.subscription_of(user)->Some_0.end_date,
    ensures
        !grants(c.subscription_of(user), c.catalog(), feature_name, now),
        status_of(c.subscription_of(user), now) == SubscriptionStatus::Expired,
{
}

/// Upgrading a user who has no subscription fails exactly when
/// `subscribe(user, tier, DEFAULT_DURATION_DAYS, now)` fails, and otherwise
/// stores the same record that such a subscription would.
pub proof fn upgrade_without_subscription_is_subscribe(
    catalog: Seq<FeatureView>,
    user: Address,
    tier: u32,
    now: u64,
)
    ensures
        upgrade_fails(tier) == subscribe_fails(tier, DEFAULT_DURATION_DAYS),
        upgraded(catalog, None, user, tier, now) == subscribed(
            catalog,
            user,
            tier,
            DEFAULT_DURATION_DAYS,
            now,
        ),
{
}

/// The subscription ledger: the feature catalog and one subscription per user.
pub struct PremiumContract {
    features: Vec<PremiumFeature>,
    subscriptions: HashMap<u64, PremiumSubscription>,
}

impl PremiumContract {
    pub closed spec fn catalog(&self) -> Seq<FeatureView> {
        self.features@.map_values(|f: PremiumFeature| f@)
    }

    /// The stored subscription of each user.
    pub closed spec fn subscriptions(&self) -> Map<Address, SubscriptionView> {
        Map::new(
            |u: Address| self.subscriptions@.contains_key(u.id),
            |u: Address| self.subscriptions@[u.id]@,
        )
    }

    pub open spec fn subscription_of(&self, user: Address) -> Option<SubscriptionView> {
        if self.subscriptions().contains_key(user) {
            Some(self.subscriptions()[user])
        } else {
            None
        }
    }

    /// Each record is filed under its own user and ends no earlier than it starts.
    pub closed spec fn wf(&self) -> bool {
        forall|k: u64|
            #[trigger] self.subscriptions@.contains_key(k) ==> {
                &&& self.subscriptions@[k].user.id == k
                &&& self.subscriptions@[k].start_date <= self.subscriptions@[k].end_date
            }
    }

    /// A ledger with an empty catalog and no subscriptions.
    pub fn new() -> (r: PremiumContract)
        ensures
            r.wf(),
            r.catalog() == Seq::<FeatureView>::empty(),
            r.subscriptions() == Map::<Address, SubscriptionView>::empty(),
    {
        let r = PremiumContract { features: Vec::new(), subscriptions: HashMap::new() };
        assert(r.catalog() =~= Seq::<FeatureView>::empty());
        assert(r.subscriptions() =~= Map::<Address, SubscriptionView>::empty());
        r
    }

    fn feature(name: &str, description: &str, tier_required: u32, price: u32) -> (r: PremiumFeature)
        ensures
            r@ == (FeatureView { name: name@, description: description@, tier_required, price }),
    {
        PremiumFeature {
            name: name.to_owned(),
            description: description.to_owned(),
            tier_required,
            price,
        }
    }

    /// Installs the feature catalog, replacing any earlier one whole.
    pub fn initialize(&mut self)
        requires
            old(self).wf(),
        ensures
            final(self).wf(),
            final(self).catalog() == default_catalog(),
            final(self).subscriptions() == old(self).subscriptions(),
    {
        let features = vec![
            Self::feature("advanced_matching", "Advanced matching algorithm", 2, 100),
            Self::feature("unlimited_messages", "Unlimited messaging", 2, 50),
            Self::feature("priority_support", "Priority customer support", 3, 200),
            Self::feature("analytics", "Profile analytics and insights", 3, 150),
        ];
        self.features = features;
        assert(self.catalog() =~= default_catalog());
    }

    /// The whole catalog, in order.
    pub fn get_features(&self) -> (r: Vec<PremiumFeature>)
        ensures
            r@.map_values(|f: PremiumFeature| f@) == self.catalog(),
    {
        let mut r: Vec<PremiumFeature> = Vec::new();
        let mut i: usize = 0;
        while i < self.features.len()
            invariant
                i <= self.features.len(),
                r@.len() == i,
                forall|j: int| 0 <= j < i ==> r@[j]@ == self.features@[j]@,
            decreases self.features.len() - i,
        {
            r.push(self.features[i].duplicate());
            i += 1;
        }
        assert(r@.map_values(|f: PremiumFeature| f@) =~= self.catalog());
        r
    }

    /// Names of the catalog's features that `tier` unlocks, in catalog order.
    pub fn get_tier_features(&self, tier: u32) -> (r: Vec<String>)
        ensures
            texts(r@) == tier_feature_names(self.catalog(), tier),
    {
        let mut r: Vec<String> = Vec::new();
        let mut i: usize = 0;
        while i < self.features.len()
            invariant
                i <= self.features.len(),
                texts(r@) == tier_feature_names(self.catalog().take(i as int), tier),
            decreases self.features.len() - i,
        {
            let ghost before = r@;
            assert(self.catalog().take(i as int + 1).drop_last() == self.catalog().take(i as int));
            if self.features[i].tier_required <= tier {
                r.push(self.features[i].name.clone());
                assert(texts(r@) =~= texts(before).push(self.features@[i as int].name@));
            }
            i += 1;
        }
        assert(self.catalog().take(self.features.len() as int) == self.catalog());
        r
    }

    /// The user's stored subscription, expired or not.
    pub fn get_subscription(&self, user: Address) -> (r: Option<PremiumSubscription>)
        ensures
            match r {
                Some(s) => self.subscription_of(user) == Some(s@),
                None => self.subscription_of(user) is None,
            },
    {
        match self.subscriptions.get(&user.id) {
            Some(s) => Some(s.duplicate()),
            None => None,
        }
    }

    /// Opens (or replaces) the user's subscription at `tier` for `duration_days`
    /// days from `now`, with the features that the catalog gives that tier.
    pub fn subscribe(&mut self, user: Address, tier: u32, duration_days: u32, now: u64) -> (r:
        Result<PremiumSubscription, ContractError>)
        requires
            old(self).wf(),
        ensures
            final(self).wf(),
            final(self).catalog() == old(self).catalog(),
            match r {
                Ok(s) => {
                    &&& !subscribe_fails(tier, duration_days)
                    &&& s@ == subscribed(old(self).catalog(), user, tier, duration_days, now)
                    &&& final(self).subscriptions() == old(self).subscriptions().insert(user, s@)
                },
                Err(e) => {
                    &&& subscribe_fails(tier, duration_days)
                    &&& e == ContractError::InvalidInput
                    &&& final(self).subscriptions() == old(self).subscriptions()
                },
            },
    {
        if tier < MIN_TIER || tier > MAX_TIER || duration_days == 0 {
            return Err(ContractError::InvalidInput);
        }
        let s = PremiumSubscription {
            user,
            tier,
            start_date: now,
            end_date: end_after(now, duration_days),
            features: self.get_tier_features(tier),
        };
        self.store(s.duplicate());
        Ok(s)
    }

    fn store(&mut self, s: PremiumSubscription)
        requires
            old(self).wf(),
            s.start_date <= s.end_date,
        ensures
            final(self).wf(),
            final(self).catalog() == old(self).catalog(),
            final(self).subscriptions() == old(self).subscriptions().insert(s.user, s@),
    {
        let ghost v = s@;
        let user = s.user;
        self.subscriptions.insert(user.id, s);
        assert(self.subscriptions() =~= old(self).subscriptions().insert(user, v));
    }

    /// Whether the user may use the feature at time `now`: the subscription
    /// must exist and not have ended, and its tier must reach the tier that
    /// the live catalog asks for that feature.
    pub fn has_feature_access(&self, user: Address, feature_name: &str, now: u64) -> (r: bool)
        ensures
            r == grants(self.subscription_of(user), self.catalog(), feature_name@, now),
    {
        let s = match self.subscriptions.get(&user.id) {
            Some(s) => s,
            None => return false,
        };
        if now > s.end_date {
            return false;
        }
        let name = feature_name.to_owned();
        assert(self.subscription_of(user) == Some(s@));
        let mut i: usize = 0;
        while i < self.features.len()
            invariant
                i <= self.features.len(),
                name@ == feature_name@,
                self.subscription_of(user) == Some(s@),
                now <= s.end_date,
                required_tier(self.catalog().take(i as int), name@) is None,
            decreases self.features.len() - i,
        {
            assert(self.catalog().take(i as int + 1).drop_last() == self.catalog().take(i as int));
            if same_text(&self.features[i].name, &name) {
                proof {
                    assert(self.catalog().take(i as int + 1).last() == self.features@[i as int]@);
                    assert(required_tier(self.catalog().take(i as int + 1), name@) == Some(
                        self.features@[i as int].tier_required,
                    ));
                    lemma_required_tier_prefix(self.catalog(), name@, i as int + 1);
                }
                return s.tier >= self.features[i].tier_required;
            }
            i += 1;
        }
        assert(self.catalog().take(self.features.len() as int) == self.catalog());
        false
    }

    /// Active until the end time has passed, then expired; none without a record.
    pub fn get_subscription_status(&self, user: Address, now: u64) -> (r: SubscriptionStatus)
        ensures
            r == status_of(self.subscription_of(user), now),
    {
        match self.subscriptions.get(&user.id) {
            Some(s) => if now > s.end_date {
                SubscriptionStatus::Expired
            } else {
                SubscriptionStatus::Active
            },
            None => SubscriptionStatus::NoSubscription,
        }
    }

    /// Removes the user's subscription; nothing happens if there is none.
    pub fn cancel_subscription(&mut self, user: Address)
        requires
            old(self).wf(),
        ensures
            final(self).wf(),
            final(self).catalog() == old(self).catalog(),
            final(self).subscriptions() == old(self).subscriptions().remove(user),
    {
        self.subscriptions.remove(&user.id);
        assert(self.subscriptions() =~= old(self).subscriptions().remove(user));
    }

    /// Sets the user's tier and takes a new snapshot of its features, keeping
    /// the validity window; a user without a subscription gets one of the
    /// default duration.
    pub fn upgrade_tier(&mut self, user: Address, new_tier: u32, now: u64) -> (r: Result<
        PremiumSubscription,
        ContractError,
    >)
        requires
            old(self).wf(),
        ensures
            final(self).wf(),
            final(self).catalog() == old(self).catalog(),
            match r {
                Ok(s) => {
                    &&& !upgrade_fails(new_tier)
                    &&& s@ == upgraded(
                        old(self).catalog(),
                        old(self).subscription_of(user),
                        user,
                        new_tier,
                        now,
                    )
                    &&& final(self).subscriptions() == old(self).subscriptions().insert(user, s@)
                },
                Err(e) => {
                    &&& upgrade_fails(new_tier)
                    &&& e == ContractError::InvalidInput
                    &&& final(self).subscriptions() == old(self).subscriptions()
                },
            },
    {
        if new_tier < MIN_TIER || new_tier > MAX_TIER {
            return Err(ContractError::InvalidInput);
        }
        match self.get_subscription(user) {
            Some(prior) => {
                let s = PremiumSubscription {
                    tier: new_tier,
                    features: self.get_tier_features(new_tier),
                    ..prior
                };
                self.store(s.duplicate());
                Ok(s)
            },
            None => self.subscribe(user, new_tier, DEFAULT_DURATION_DAYS, now),
        }
    }

    /// Pushes the end of the user's subscription back by `additional_days`
    /// days; a user without a subscription gets a basic one of that length.
    pub fn extend_subscription(&mut self, user: Address, additional_days: u32, now: u64) -> (r:
        Result<PremiumSubscription, ContractError>)
        requires
            old(self).wf(),
        ensures
            final(self).wf(),
            final(self).catalog() == old(self).catalog(),
            match r {
                Ok(s) => {
                    &&& old(self).subscription_of(user) is Some || additional_days > 0
                    &&& s@ == extended(
                        old(self).catalog(),
                        old(self).subscription_of(user),
                        user,
                        additional_days,
                        now,
                    )
                    &&& final(self).subscriptions() == old(self).subscriptions().insert(user, s@)
                },
                Err(e) => {
                    &&& old(self).subscription_of(user) is None && additional_days == 0
                    &&& e == ContractError::InvalidInput
                    &&& final(self).subscriptions() == old(self).subscriptions()
                },
            },
    {
        match self.get_subscription(user) {
            Some(prior) => {
                let s = PremiumSubscription {
                    end_date: end_after(prior.end_date, additional_days),
                    ..prior
                };
                self.store(s.duplicate());
                Ok(s)
            },
            None => self.subscribe(user, MIN_TIER, additional_days, now),
        }
    }
}

} // verus!
