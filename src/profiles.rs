use std::collections::HashMap;
use vstd::prelude::*;
use crate::types::{Address, ContractError, texts, copy_texts, contains_text};

verus! {

broadcast use vstd::std_specs::hash::group_hash_axioms, vstd::seq_lib::group_seq_properties;

/// A user's profile. `verified` is set only by `verify_profile`.
#[derive(Debug)]
pub struct UserProfile {
    pub user: Address,
    pub display_name: String,
    pub age: u32,
    pub occupation: String,
    pub bio: String,
    pub interests: Vec<String>,
    pub verified: bool,
}

pub ghost struct ProfileView {
    pub user: Address,
    pub display_name: Seq<char>,
    pub age: u32,
    pub occupation: Seq<char>,
    pub bio: Seq<char>,
    pub interests: Seq<Seq<char>>,
    pub verified: bool,
}

impl View for UserProfile {
    type V = ProfileView;

    open spec fn view(&self) -> ProfileView {
        ProfileView {
            user: self.user,
            display_name: self.display_name@,
            age: self.age,
            occupation: self.occupation@,
            bio: self.bio@,
            interests: texts(self.interests@),
            verified: self.verified,
        }
    }
}

impl UserProfile {
    pub fn duplicate(&self) -> (r: UserProfile)
        ensures
            r@ == self@,
    {
        UserProfile {
            user: self.user,
            display_name: self.display_name.clone(),
            age: self.age,
            occupation: self.occupation.clone(),
            bio: self.bio.clone(),
            interests: copy_texts(&self.interests),
            verified: self.verified,
        }
    }
}

/// The users of a list of profiles, in order.
pub open spec fn users_of(ps: Seq<UserProfile>) -> Seq<Address> {
    ps.map_values(|p: UserProfile| p.user)
}

/// The users whose profile lists `interest`.
pub open spec fn interested(profiles: Map<Address, ProfileView>, interest: Seq<char>) -> Set<Address> {
    Set::new(|a: Address| profiles.contains_key(a) && profiles[a].interests.contains(interest))
}

/// `ps` lists, once each, the stored profiles of the users in `users`.
pub open spec fn lists_profiles(
    ps: Seq<UserProfile>,
    profiles: Map<Address, ProfileView>,
    users: Set<Address>,
) -> bool {
    &&& users_of(ps).to_set() == users
    &&& users_of(ps).no_duplicates()
    &&& forall|i: int|
        0 <= i < ps.len() ==> profiles.contains_key(#[trigger] ps[i].user) && ps[i]@
            == profiles[ps[i].user]
}

spec fn selected(p: ProfileView, interest: Seq<char>, all: bool) -> bool {
    all || p.interests.contains(interest)
}

/// The profile registry: one profile per address.
pub struct UserProfileContract {
    profiles: HashMap<u64, UserProfile>,
    order: Vec<u64>,
}

impl UserProfileContract {
    /// The stored profile of each user.
    pub closed spec fn profiles(&self) -> Map<Address, ProfileView> {
        Map::new(
            |a: Address| self.profiles@.contains_key(a.id),
            |a: Address| self.profiles@[a.id]@,
        )
    }

    /// Each profile is filed under its user, and the registration order lists
    /// each stored user once.
    pub closed spec fn wf(&self) -> bool {
        &&& forall|k: u64| #[trigger] self.profiles@.contains_key(k) ==> self.profiles@[k].user.id == k
        &&& self.order@.no_duplicates()
        &&& forall|k: u64| #[trigger] self.order@.contains(k) <==> self.profiles@.contains_key(k)
    }

    /// An empty registry.
    pub fn new() -> (r: UserProfileContract)
        ensures
            r.wf(),
            r.profiles() == Map::<Address, ProfileView>::empty(),
    {
        let r = UserProfileContract { profiles: HashMap::new(), order: Vec::new() };
        assert(r.profiles() =~= Map::<Address, ProfileView>::empty());
        r
    }

    fn store(&mut self, p: UserProfile)
        requires
            old(self).wf(),
        ensures
            final(self).wf(),
            final(self).profiles() == old(self).profiles().insert(p.user, p@),
    {
        let ghost v = p@;
        let user = p.user;
        if !self.profiles.contains_key(&user.id) {
            let ghost prior = self.order@;
            self.order.push(user.id);
            proof {
                assert forall|a: int, b: int|
                    0 <= a < self.order@.len() && 0 <= b < self.order@.len() && a != b implies
                    self.order@[a] != self.order@[b] by {
                    if a == prior.len() {
                        assert(prior.contains(prior[b]));
                    } else if b == prior.len() {
                        assert(prior.contains(prior[a]));
                    }
                }
            }
        }
        self.profiles.insert(user.id, p);
        assert(self.profiles() =~= old(self).profiles().insert(user, v));
    }

    /// Stores a fresh, unverified profile for `user`, replacing any earlier one.
    pub fn create_profile(
        &mut self,
        user: Address,
        display_name: String,
        age: u32,
        occupation: String,
        bio: String,
        interests: Vec<String>,
    ) -> (r: UserProfile)
        requires
            old(self).wf(),
        ensures
            final(self).wf(),
            r@ == (ProfileView {
                user,
                display_name: display_name@,
                age,
                occupation: occupation@,
                bio: bio@,
                interests: texts(interests@),
                verified: false,
            }),
            final(self).profiles() == old(self).profiles().insert(user, r@),
    {
        let p = UserProfile { user, display_name, age, occupation, bio, interests, verified: false };
        self.store(p.duplicate());
        p
    }

    /// Replaces the attributes of the user's profile, keeping its verified
    /// flag; a user without a profile gets a fresh, unverified one.
    pub fn update_profile(
        &mut self,
        user: Address,
        display_name: String,
        age: u32,
        occupation: String,
        bio: String,
        interests: Vec<String>,
    ) -> (r: UserProfile)
        requires
            old(self).wf(),
        ensures
            final(self).wf(),
            r@ == (ProfileView {
                user,
                display_name: display_name@,
                age,
                occupation: occupation@,
                bio: bio@,
                interests: texts(interests@),
                verified: old(self).profiles().contains_key(user) && old(self).profiles()[user].verified,
            }),
            final(self).profiles() == old(self).profiles().insert(user, r@),
    {
        let verified = match self.profiles.get(&user.id) {
            Some(p) => p.verified,
            None => false,
        };
        let p = UserProfile { user, display_name, age, occupation, bio, interests, verified };
        self.store(p.duplicate());
        p
    }

    /// Marks an existing profile as verified.
    pub fn verify_profile(&mut self, user: Address) -> (r: Result<UserProfile, ContractError>)
        requires
            old(self).wf(),
        ensures
            final(self).wf(),
            match r {
                Ok(p) => {
                    &&& old(self).profiles().contains_key(user)
                    &&& p@ == (ProfileView { verified: true, ..old(self).profiles()[user] })
                    &&& final(self).profiles() == old(self).profiles().insert(user, p@)
                },
                Err(e) => {
                    &&& !old(self).profiles().contains_key(user)
                    &&& e == ContractError::NotFound
                    &&& *final(self) == *old(self)
                },
            },
    {
        let mut p = match self.get_profile(user) {
            Some(p) => p,
            None => return Err(ContractError::NotFound),
        };
        p.verified = true;
        self.store(p.duplicate());
        Ok(p)
    }

    /// The user's profile, if one is stored.
    pub fn get_profile(&self, user: Address) -> (r: Option<UserProfile>)
        requires
            self.wf(),
        ensures
            match r {
                Some(p) => self.profiles().contains_key(user) && p@ == self.profiles()[user],
                None => !self.profiles().contains_key(user),
            },
    {
        match self.profiles.get(&user.id) {
            Some(p) => Some(p.duplicate()),
            None => None,
        }
    }

    /// Removes the user's profile; nothing happens if there is none.
    pub fn delete_profile(&mut self, user: Address)
        requires
            old(self).wf(),
        ensures
            final(self).wf(),
            final(self).profiles() == old(self).profiles().remove(user),
    {
        let ghost prior = self.order@;
        let mut kept: Vec<u64> = Vec::new();
        let mut i: usize = 0;
        while i < self.order.len()
            invariant
                i <= prior.len(),
                self.order@ == prior,
                prior.no_duplicates(),
                kept@.no_duplicates(),
                forall|k: u64| #[trigger]
                    kept@.contains(k) <==> prior.take(i as int).contains(k) && k != user.id,
            decreases prior.len() - i,
        {
            assert(prior.take(i as int + 1) == prior.take(i as int).push(prior[i as int]));
            if self.order[i] != user.id {
                let ghost before = kept@;
                assert(!prior.take(i as int).contains(prior[i as int]));
                kept.push(self.order[i]);
                assert forall|a: int, b: int|
                    0 <= a < kept@.len() && 0 <= b < kept@.len() && a != b implies kept@[a]
                    != kept@[b] by {
                    if a == before.len() {
                        assert(before.contains(before[b]));
                    } else if b == before.len() {
                        assert(before.contains(before[a]));
                    }
                }
            }
            i += 1;
        }
        assert(prior.take(prior.len() as int) == prior);
        self.order = kept;
        self.profiles.remove(&user.id);
        assert(self.profiles() =~= old(self).profiles().remove(user));
    }

    fn collect(&self, interest: &String, all: bool) -> (r: Vec<UserProfile>)
        requires
            self.wf(),
        ensures
            lists_profiles(
                r@,
                self.profiles(),
                Set::new(
                    |a: Address|
                        self.profiles().contains_key(a) && selected(
                            self.profiles()[a],
                            interest@,
                            all,
                        ),
                ),
            ),
    {
        let ghost profiles = self.profiles();
        let mut r: Vec<UserProfile> = Vec::new();
        let mut i: usize = 0;
        while i < self.order.len()
            invariant
                i <= self.order@.len(),
                self.wf(),
                profiles == self.profiles(),
                users_of(r@).no_duplicates(),
                forall|j: int|
                    0 <= j < r@.len() ==> profiles.contains_key(#[trigger] r@[j].user) && r@[j]@
                        == profiles[r@[j].user],
                forall|a: Address| #[trigger]
                    users_of(r@).contains(a) <==> self.order@.take(i as int).contains(a.id)
                        && profiles.contains_key(a) && selected(profiles[a], interest@, all),
            decreases self.order@.len() - i,
        {
            let id = self.order[i];
            assert(self.order@.take(i as int + 1) == self.order@.take(i as int).push(id));
            assert(self.order@.contains(id));
            let p = match self.profiles.get(&id) {
                Some(p) => p,
                None => {
                    assert(false);
                    return Vec::new();
                },
            };
            proof {
                assert(p.user.id == id);
                assert(profiles.contains_key(p.user));
                assert(profiles[p.user] == p@);
            }
            if all || contains_text(&p.interests, interest) {
                let ghost before = r@;
                proof {
                    assert(!self.order@.take(i as int).contains(id));
                    assert(!users_of(before).contains(p.user));
                }
                r.push(p.duplicate());
                assert(users_of(r@) == users_of(before).push(p.user));
                assert forall|a: int, b: int|
                    0 <= a < users_of(r@).len() && 0 <= b < users_of(r@).len() && a != b implies
                    users_of(r@)[a] != users_of(r@)[b] by {
                    if a == before.len() {
                        assert(users_of(before).contains(users_of(before)[b]));
                    } else if b == before.len() {
                        assert(users_of(before).contains(users_of(before)[a]));
                    }
                }
            }
            i += 1;
        }
        proof {
            assert(self.order@.take(self.order@.len() as int) == self.order@);
            assert forall|a: Address| #[trigger] profiles.contains_key(a) implies self.order@.contains(
                a.id,
            ) by {}
        }
        assert(users_of(r@).to_set() =~= Set::new(
            |a: Address| profiles.contains_key(a) && selected(profiles[a], interest@, all),
        ));
        r
    }

    /// The profiles that list `interest`, in registration order.
    pub fn search_profiles(&self, interest: &str) -> (r: Vec<UserProfile>)
        requires
            self.wf(),
        ensures
            lists_profiles(r@, self.profiles(), interested(self.profiles(), interest@)),
    {
        let name = interest.to_owned();
        let r = self.collect(&name, false);
        assert(interested(self.profiles(), interest@) =~= Set::new(
            |a: Address|
                self.profiles().contains_key(a) && selected(self.profiles()[a], name@, false),
        ));
        r
    }

    /// Every stored profile, in registration order.
    pub fn get_all_profiles(&self) -> (r: Vec<UserProfile>)
        requires
            self.wf(),
        ensures
            lists_profiles(r@, self.profiles(), self.profiles().dom()),
    {
        let none = String::new();
        let r = self.collect(&none, true);
        assert(self.profiles().dom() =~= Set::new(
            |a: Address| self.profiles().contains_key(a) && selected(self.profiles()[a], none@, true),
        ));
        r
    }
}

} // verus!
