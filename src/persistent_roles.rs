use vstd::prelude::*;
use std::collections::{HashMap, HashSet};
use vstd::std_specs::hash::{spec_hash_keys_iter, spec_keys_iter};
use vstd::std_specs::iter::IteratorSpec;

use crate::persistent::{Persistable, Persistent};

verus! {

broadcast use vstd::std_specs::hash::group_hash_axioms;

/// Model of one guild's persisted-role state.
pub struct GuildView {
    /// The tracked roles.
    pub roles: Set<u64>,
    /// For each user, the tracked roles they held when last seen.
    pub users: Map<u64, Seq<u64>>,
}

/// `s` without any `r`.
pub open spec fn without(s: Seq<u64>, r: u64) -> Seq<u64>
    decreases s.len(),
{
    if s.len() == 0 {
        seq![]
    } else {
        let p = without(s.drop_last(), r);
        if s.last() == r {
            p
        } else {
            p.push(s.last())
        }
    }
}

/// The snapshots once `role` is struck from each, a snapshot left empty
/// dropped with its user.
pub open spec fn stripped(users: Map<u64, Seq<u64>>, role: u64) -> Map<u64, Seq<u64>> {
    Map::new(
        |u: u64| users.contains_key(u) && without(users[u], role).len() > 0,
        |u: u64| without(users[u], role),
    )
}

/// The snapshots once `role` has been appended to that of each user of
/// `list`, in turn.
pub open spec fn appended(users: Map<u64, Seq<u64>>, list: Seq<u64>, role: u64) -> Map<u64, Seq<u64>>
    decreases list.len(),
{
    if list.len() == 0 {
        users
    } else {
        let m = appended(users, list.drop_last(), role);
        let u = list.last();
        m.insert(u, (if m.contains_key(u) { m[u] } else { seq![] }).push(role))
    }
}

/// The invariants of a guild's state: each snapshot holds tracked roles only,
/// and no snapshot is empty.
pub open spec fn guild_wf(g: GuildView) -> bool {
    &&& forall|u: u64| #[trigger] g.users.contains_key(u) ==> g.users[u].len() > 0
    &&& forall|u: u64, i: int|
        g.users.contains_key(u) && 0 <= i < g.users[u].len() ==> g.roles.contains(
            #[trigger] g.users[u][i],
        )
}

pub proof fn lemma_without(s: Seq<u64>, r: u64)
    ensures
        forall|i: int| 0 <= i < without(s, r).len() ==> #[trigger] without(s, r)[i] != r
            && s.contains(without(s, r)[i]),
    decreases s.len(),
{
    if s.len() > 0 {
        lemma_without(s.drop_last(), r);
        let p = without(s.drop_last(), r);
        assert forall|i: int| 0 <= i < without(s, r).len() implies #[trigger] without(s, r)[i] != r
            && s.contains(without(s, r)[i]) by {
            if i < p.len() {
                let j = choose|j: int| 0 <= j < s.drop_last().len() && s.drop_last()[j] == p[i];
                assert(s[j] == p[i]);
            } else {
                assert(s[s.len() - 1] == s.last());
            }
        }
    }
}

/// The roles of `s` that are tracked in `roles`, in order.
pub open spec fn tracked_of(s: Seq<u64>, roles: Set<u64>) -> Seq<u64>
    decreases s.len(),
{
    if s.len() == 0 {
        seq![]
    } else {
        let p = tracked_of(s.drop_last(), roles);
        if roles.contains(s.last()) {
            p.push(s.last())
        } else {
            p
        }
    }
}

/// One guild's persisted-role state.
pub struct GuildState {
    roles: HashSet<u64>,
    users: HashMap<u64, Vec<u64>>,
}

impl View for GuildState {
    type V = GuildView;

    closed spec fn view(&self) -> GuildView {
        GuildView { roles: self.roles@, users: self.users@.map_values(|v: Vec<u64>| v@) }
    }
}

fn same_roles(a: &Vec<u64>, b: &Vec<u64>) -> (r: bool)
    ensures
        r == (a@ == b@),
{
    if a.len() != b.len() {
        return false;
    }
    let mut i: usize = 0;
    while i < a.len()
        invariant
            i <= a.len() == b.len(),
            forall|j: int| 0 <= j < i ==> a@[j] == b@[j],
        decreases a.len() - i,
    {
        if a[i] != b[i] {
            return false;
        }
        i = i + 1;
    }
    assert(a@ =~= b@);
    true
}

/// The roles of `roles` that `watched` holds, in order.
fn filter_tracked(roles: &Vec<u64>, watched: &HashSet<u64>) -> (r: Vec<u64>)
    ensures
        r@ == tracked_of(roles@, watched@),
{
    let mut out: Vec<u64> = Vec::new();
    let mut i: usize = 0;
    while i < roles.len()
        invariant
            i <= roles.len(),
            out@ == tracked_of(roles@.take(i as int), watched@),
        decreases roles.len() - i,
    {
        assert(roles@.take(i + 1).drop_last() =~= roles@.take(i as int));
        if watched.contains(&roles[i]) {
            out.push(roles[i]);
        }
        i = i + 1;
    }
    assert(roles@.take(roles.len() as int) =~= roles@);
    out
}

/// `s` without any `r`.
fn remove_all(s: &Vec<u64>, r: u64) -> (out: Vec<u64>)
    ensures
        out@ == without(s@, r),
{
    let mut out: Vec<u64> = Vec::new();
    let mut i: usize = 0;
    while i < s.len()
        invariant
            i <= s.len(),
            out@ == without(s@.take(i as int), r),
        decreases s.len() - i,
    {
        assert(s@.take(i + 1).drop_last() =~= s@.take(i as int));
        if s[i] != r {
            out.push(s[i]);
        }
        i = i + 1;
    }
    assert(s@.take(s.len() as int) =~= s@);
    out
}

/// Snapshots recorded in turn, a later one for the same user replacing an
/// earlier one.
pub open spec fn snapshots_of(users: Seq<(u64, Vec<u64>)>) -> Map<u64, Seq<u64>>
    decreases users.len(),
{
    if users.len() == 0 {
        Map::empty()
    } else {
        snapshots_of(users.drop_last()).insert(users.last().0, users.last().1@)
    }
}

/// A stored snapshot is non-empty and holds tracked roles only.
pub open spec fn valid_snapshot(roles: Seq<u64>, snapshot: Seq<u64>) -> bool {
    snapshot.len() > 0 && forall|j: int| 0 <= j < snapshot.len() ==> roles.contains(#[trigger] snapshot[j])
}

impl GuildState {
    /// A guild state from stored parts: the tracked roles, and each user's
    /// snapshot. None where the parts break the invariants: a snapshot that
    /// is empty or holds a role that is not tracked.
    pub fn from_parts(roles: Vec<u64>, users: Vec<(u64, Vec<u64>)>) -> (r: Option<GuildState>)
        ensures
            r is Some <==> forall|i: int| 0 <= i < users@.len() ==> valid_snapshot(roles@, #[trigger] users@[i].1@),
            match r {
                Some(g) => g.wf() && g@.roles == roles@.to_set() && g@.users == snapshots_of(users@),
                None => true,
            },
    {
        let mut g = GuildState::new();
        let mut i: usize = 0;
        while i < roles.len()
            invariant
                i <= roles.len(),
                g.wf(),
                g@.users == Map::<u64, Seq<u64>>::empty(),
                g@.roles == roles@.take(i as int).to_set(),
            decreases roles.len() - i,
        {
            proof {
                assert(roles@.take(i + 1) =~= roles@.take(i as int).push(roles@[i as int]));
                roles@.take(i as int).lemma_push_to_set_commute(roles@[i as int]);
            }
            g.add_role(roles[i], Vec::new());
            assert(appended(Map::<u64, Seq<u64>>::empty(), Seq::<u64>::empty(), roles@[i as int]) =~= Map::<u64, Seq<u64>>::empty());
            i = i + 1;
        }
        assert(roles@.take(roles.len() as int) =~= roles@);
        let mut k: usize = 0;
        while k < users.len()
            invariant
                k <= users.len(),
                g.wf(),
                g@.roles == roles@.to_set(),
                g@.users == snapshots_of(users@.take(k as int)),
                forall|m: int| 0 <= m < k ==> valid_snapshot(roles@, #[trigger] users@[m].1@),
            decreases users.len() - k,
        {
            let list = &users[k].1;
            if list.len() == 0 {
                assert(!valid_snapshot(roles@, users@[k as int].1@));
                return None;
            }
            let mut j: usize = 0;
            while j < list.len()
                invariant
                    j <= list.len(),
                    k < users.len(),
                    list@ == users@[k as int].1@,
                    g@.roles == roles@.to_set(),
                    forall|m: int| 0 <= m < j ==> roles@.contains(#[trigger] list@[m]),
                decreases list.len() - j,
            {
                if !g.tracks(list[j]) {
                    assert(!roles@.to_set().contains(list@[j as int]));
                    assert(!roles@.contains(users@[k as int].1@[j as int]));
                    assert(!valid_snapshot(roles@, users@[k as int].1@));
                    return None;
                }
                j = j + 1;
            }
            proof {
                assert(users@.take(k + 1).drop_last() =~= users@.take(k as int));
                assert(valid_snapshot(roles@, users@[k as int].1@));
            }
            let copy = list.clone();
            assert(copy@ =~= list@);
            g.set_user_roles(users[k].0, copy);
            k = k + 1;
        }
        assert(users@.take(users.len() as int) =~= users@);
        Some(g)
    }
}

impl Clone for GuildState {
    fn clone(&self) -> (r: GuildState)
        ensures
            r@ == self@,
    {
        let mut roles: HashSet<u64> = HashSet::new();
        let ghost all = spec_hash_keys_iter(&self.roles).remaining().unref();
        let ghost mut n: int = 0;
        for role in it: self.roles.iter()
            invariant
                all.to_set() == self.roles@,
                all.no_duplicates(),
                n == it.index(),
                all == it.seq().unref(),
                roles@ == all.take(n).to_set(),
        {
            proof {
                assert(all.take(n + 1) =~= all.take(n).push(*role));
                all.take(n).lemma_push_to_set_commute(*role);
            }
            roles.insert(*role);
            proof {
                n = n + 1;
            }
        }
        proof {
            assert(all.take(n) =~= all);
        }
        let r = GuildState { roles, users: self.users.clone() };
        assert(r@.users =~= self@.users);
        r
    }
}

impl GuildState {
    pub open spec fn wf(&self) -> bool {
        guild_wf(self@)
    }

    pub fn new() -> (r: GuildState)
        ensures
            r@.roles == Set::<u64>::empty(),
            r@.users == Map::<u64, Seq<u64>>::empty(),
            r.wf(),
    {
        let r = GuildState { roles: HashSet::new(), users: HashMap::new() };
        assert(r@.users =~= Map::<u64, Seq<u64>>::empty());
        r
    }

    /// Whether `role` is tracked.
    pub fn tracks(&self, role: u64) -> (r: bool)
        ensures
            r == self@.roles.contains(role),
    {
        self.roles.contains(&role)
    }

    /// The tracked roles, in no particular order.
    pub fn tracked_roles(&self) -> (r: Vec<u64>)
        ensures
            r@.to_set() == self@.roles,
            r@.no_duplicates(),
    {
        let mut out: Vec<u64> = Vec::new();
        let ghost all = spec_hash_keys_iter(&self.roles).remaining().unref();
        let ghost mut n: int = 0;
        for role in it: self.roles.iter()
            invariant
                all.to_set() == self.roles@,
                all.no_duplicates(),
                n == it.index(),
                all == it.seq().unref(),
                out@ == all.take(n),
        {
            out.push(*role);
            proof {
                n = n + 1;
            }
        }
        assert(out@ =~= all);
        out
    }

    /// The users that have a snapshot, in no particular order.
    pub fn users(&self) -> (r: Vec<u64>)
        ensures
            r@.to_set() == self@.users.dom(),
            r@.no_duplicates(),
    {
        let mut out: Vec<u64> = Vec::new();
        let ghost all = spec_keys_iter(&self.users).remaining().unref();
        let ghost mut n: int = 0;
        for user in it: self.users.keys()
            invariant
                all.to_set() == self.users@.dom(),
                all.no_duplicates(),
                n == it.index(),
                all == it.seq().unref(),
                out@ == all.take(n),
        {
            out.push(*user);
            proof {
                n = n + 1;
            }
        }
        assert(out@ =~= all);
        proof {
            assert(self@.users.dom() =~= self.users@.dom());
        }
        out
    }

    /// The snapshot of `user`; empty where there is none.
    pub fn user_roles(&self, user: u64) -> (r: Vec<u64>)
        ensures
            self@.users.contains_key(user) ==> r@ == self@.users[user],
            !self@.users.contains_key(user) ==> r@.len() == 0,
    {
        match self.users.get(&user) {
            Some(roles) => roles.clone(),
            None => Vec::new(),
        }
    }

    /// Records the tracked roles that `user` holds; an empty list drops the
    /// user's snapshot.
    pub fn set_user_roles(&mut self, user: u64, roles: Vec<u64>)
        requires
            old(self).wf(),
            forall|i: int| 0 <= i < roles@.len() ==> old(self)@.roles.contains(#[trigger] roles@[i]),
        ensures
            final(self).wf(),
            final(self)@.roles == old(self)@.roles,
            final(self)@.users == if roles@.len() == 0 {
                old(self)@.users.remove(user)
            } else {
                old(self)@.users.insert(user, roles@)
            },
    {
        let ghost v = roles@;
        if roles.len() > 0 {
            self.users.insert(user, roles);
            assert(self@.users =~= old(self)@.users.insert(user, v));
        } else {
            self.users.remove(&user);
            assert(self@.users =~= old(self)@.users.remove(user));
        }
    }

    /// Starts tracking `role`. Where it was not tracked yet, each user of
    /// `users_with_role` gets it appended to their snapshot.
    pub fn add_role(&mut self, role: u64, users_with_role: Vec<u64>)
        requires
            old(self).wf(),
        ensures
            final(self).wf(),
            final(self)@.roles == old(self)@.roles.insert(role),
            final(self)@.users == if old(self)@.roles.contains(role) {
                old(self)@.users
            } else {
                appended(old(self)@.users, users_with_role@, role)
            },
    {
        if !self.roles.insert(role) {
            assert(old(self)@.roles.insert(role) =~= old(self)@.roles);
            assert(self@.users == old(self)@.users);
            return;
        }
        proof {
            let g = self@;
            assert(g.users == old(self)@.users);
            assert forall|u: u64, i: int| g.users.contains_key(u) && 0 <= i < g.users[u].len()
                implies g.roles.contains(#[trigger] g.users[u][i]) by {
                assert(old(self)@.roles.contains(old(self)@.users[u][i]));
            }
            assert(guild_wf(g));
        }
        let ghost start = self@.users;
        let mut i: usize = 0;
        while i < users_with_role.len()
            invariant
                i <= users_with_role.len(),
                self@.roles == old(self)@.roles.insert(role),
                self@.users == appended(start, users_with_role@.take(i as int), role),
                guild_wf(self@),
            decreases users_with_role.len() - i,
        {
            let user = users_with_role[i];
            let ghost before = self@.users;
            proof {
                assert(users_with_role@.take(i + 1).drop_last() =~= users_with_role@.take(i as int));
            }
            let ghost raw = self.users@;
            let ghost next = (if before.contains_key(user) { before[user] } else { seq![] }).push(role);
            match self.users.remove(&user) {
                Some(mut list) => {
                    assert(list@ == before[user]);
                    list.push(role);
                    assert(list@ == next);
                    self.users.insert(user, list);
                },
                None => {
                    assert(!before.contains_key(user));
                    let single = vec![role];
                    assert(single@ =~= next);
                    self.users.insert(user, single);
                },
            }
            assert(self@.users =~= before.insert(user, next));
            proof {
                let g = self@;
                assert forall|u: u64, k: int| g.users.contains_key(u) && 0 <= k < g.users[u].len()
                    implies g.roles.contains(#[trigger] g.users[u][k]) by {
                    if u != user {
                        assert(g.users[u][k] == before[u][k]);
                    } else if k < next.len() - 1 {
                        assert(g.users[u][k] == before[u][k]);
                    }
                }
            }
            i = i + 1;
        }
        assert(users_with_role@.take(users_with_role.len() as int) =~= users_with_role@);
    }

    /// Stops tracking `role`: it is struck from every snapshot, and a user
    /// left with none loses their snapshot. Nothing changes where `role` was
    /// not tracked.
    pub fn remove_role(&mut self, role: u64)
        requires
            old(self).wf(),
        ensures
            final(self).wf(),
            final(self)@.roles == old(self)@.roles.remove(role),
            final(self)@.users == if old(self)@.roles.contains(role) {
                stripped(old(self)@.users, role)
            } else {
                old(self)@.users
            },
    {
        if !self.roles.remove(&role) {
            assert(old(self)@.roles.remove(role) =~= old(self)@.roles);
            assert(self@.roles =~= old(self)@.roles);
            assert(self@.users == old(self)@.users);
            return;
        }
        let ghost users = old(self)@.users;
        let mut kept: HashMap<u64, Vec<u64>> = HashMap::new();
        let ghost all = spec_keys_iter(&self.users).remaining().unref();
        let ghost mut n: int = 0;
        for user in it: self.users.keys()
            invariant
                all.to_set() == self.users@.dom(),
                all.no_duplicates(),
                n == it.index(),
                all == it.seq().unref(),
                users == self.users@.map_values(|v: Vec<u64>| v@),
                forall|u: u64| #[trigger]
                    kept@.contains_key(u) <==> (all.take(n).to_set().contains(u) && without(
                        users[u],
                        role,
                    ).len() > 0),
                forall|u: u64| #[trigger] kept@.contains_key(u) ==> kept@[u]@ == without(users[u], role),
        {
            let list = self.users.get(user).unwrap();
            let rest = remove_all(list, role);
            let ghost before = kept@;
            if rest.len() > 0 {
                kept.insert(*user, rest);
            }
            proof {
                assert(all[n] == *user);
                assert(all.take(n + 1) =~= all.take(n).push(*user));
                all.take(n).lemma_push_to_set_commute(*user);
                if all.take(n).to_set().contains(*user) {
                    let j = choose|j: int| 0 <= j < n && #[trigger] all.take(n)[j] == *user;
                    assert(all[j] == all[n]);
                }
                n = n + 1;
            }
        }
        proof {
            assert(all.take(n) =~= all);
            lemma_guild_stripped(old(self)@, role);
        }
        self.users = kept;
        assert(self@.users =~= stripped(users, role));
        assert(self@.roles =~= old(self)@.roles.remove(role));
    }
}

/// Whether every role of `a` is in `b`.
fn role_subset(a: &HashSet<u64>, b: &HashSet<u64>) -> (r: bool)
    ensures
        r == a@.subset_of(b@),
{
    let ghost all = spec_hash_keys_iter(a).remaining().unref();
    let ghost mut n: int = 0;
    for role in it: a.iter()
        invariant
            all.to_set() == a@,
            n == it.index(),
            all == it.seq().unref(),
            forall|i: int| 0 <= i < n ==> #[trigger] b@.contains(all[i]),
    {
        if !b.contains(role) {
            proof {
                assert(all.to_set().contains(*role));
            }
            return false;
        }
        proof {
            n = n + 1;
        }
    }
    proof {
        assert forall|x: u64| #[trigger] a@.contains(x) implies b@.contains(x) by {
            assert(all.to_set().contains(x));
            let i = choose|i: int| 0 <= i < all.len() && all[i] == x;
        }
    }
    true
}

impl GuildState {
    /// Whether both guild states hold the same roles and snapshots.
    pub fn same(&self, other: &GuildState) -> (r: bool)
        ensures
            r == (self@ == other@),
    {
        if self.users.len() != other.users.len() {
            proof {
                if self@ == other@ {
                    assert(self.users@.dom() =~= self@.users.dom());
                    assert(other.users@.dom() =~= other@.users.dom());
                }
            }
            return false;
        }
        if !role_subset(&self.roles, &other.roles) || !role_subset(&other.roles, &self.roles) {
            return false;
        }
        assert(self.roles@ =~= other.roles@);
        let ghost keys = spec_keys_iter(&self.users).remaining().unref();
        let ghost mut m: int = 0;
        for user in it: self.users.keys()
            invariant
                keys.to_set() == self.users@.dom(),
                keys.no_duplicates(),
                m == it.index(),
                keys == it.seq().unref(),
                self.users@.len() == other.users@.len(),
                self.roles@ == other.roles@,
                forall|i: int| 0 <= i < m ==> other.users@.contains_key(#[trigger] keys[i])
                    && other.users@[keys[i]]@ == self.users@[keys[i]]@,
        {
            proof {
                assert(keys[m] == *user);
            }
            match other.users.get(user) {
                Some(theirs) => {
                    let mine = self.users.get(user).unwrap();
                    assert(mine@ == self.users@[*user]@);
                    assert(theirs@ == other.users@[*user]@);
                    if !same_roles(mine, theirs) {
                        proof {
                            assert(self@.users[*user] != other@.users[*user]);
                        }
                        return false;
                    }
                },
                None => {
                    proof {
                        assert(self@.users.contains_key(*user));
                        assert(!other@.users.contains_key(*user));
                    }
                    return false;
                },
            }
            assert(other.users@.contains_key(keys[m]) && other.users@[keys[m]]@ == self.users@[keys[m]]@);
            proof {
                m = m + 1;
            }
        }
        proof {
            assert forall|x: u64| #[trigger] self.users@.contains_key(x) implies other.users@.contains_key(x)
                && other.users@[x]@ == self.users@[x]@ by {
                assert(keys.to_set().contains(x));
                let i = choose|i: int| 0 <= i < keys.len() && keys[i] == x;
            }
            vstd::set_lib::lemma_subset_equality(self.users@.dom(), other.users@.dom());
            assert(self@.users =~= other@.users);
        }
        true
    }
}

/// A guild with nothing tracked.
pub open spec fn empty_guild() -> GuildView {
    GuildView { roles: Set::empty(), users: Map::empty() }
}

/// A guild once `role` is tracked, `users` holding it.
pub open spec fn with_role(g: GuildView, role: u64, users: Seq<u64>) -> GuildView {
    GuildView {
        roles: g.roles.insert(role),
        users: if g.roles.contains(role) {
            g.users
        } else {
            appended(g.users, users, role)
        },
    }
}

/// A guild once `role` is no longer tracked.
pub open spec fn without_role(g: GuildView, role: u64) -> GuildView {
    GuildView {
        roles: g.roles.remove(role),
        users: if g.roles.contains(role) {
            stripped(g.users, role)
        } else {
            g.users
        },
    }
}

/// A guild once `user` is seen holding `roles`: their snapshot becomes the
/// tracked ones among them.
pub open spec fn with_member(g: GuildView, user: u64, roles: Seq<u64>) -> GuildView {
    let kept = tracked_of(roles, g.roles);
    GuildView {
        roles: g.roles,
        users: if kept.len() == 0 {
            g.users.remove(user)
        } else {
            g.users.insert(user, kept)
        },
    }
}

/// The snapshot of `user` in `guild`, where there is one.
pub open spec fn snapshot_of(m: Map<u64, GuildView>, guild: u64, user: u64) -> Option<Seq<u64>> {
    if m.contains_key(guild) && m[guild].users.contains_key(user) {
        Some(m[guild].users[user])
    } else {
        None
    }
}

pub open spec fn state_wf(m: Map<u64, GuildView>) -> bool {
    forall|g: u64| #[trigger] m.contains_key(g) ==> guild_wf(m[g])
}

/// Persisted-role state of all guilds.
pub struct State {
    guilds: HashMap<u64, GuildState>,
}

impl View for State {
    type V = Map<u64, GuildView>;

    closed spec fn view(&self) -> Map<u64, GuildView> {
        self.guilds@.map_values(|g: GuildState| g@)
    }
}

impl State {
    pub fn new() -> (r: State)
        ensures
            r@ == Map::<u64, GuildView>::empty(),
    {
        let r = State { guilds: HashMap::new() };
        assert(r@ =~= Map::<u64, GuildView>::empty());
        r
    }

    /// Whether anything is kept for `guild`.
    pub fn has_guild(&self, guild: u64) -> (r: bool)
        ensures
            r == self@.contains_key(guild),
    {
        self.guilds.contains_key(&guild)
    }

    pub fn guild(&self, guild: u64) -> (r: Option<&GuildState>)
        ensures
            match r {
                Some(g) => self@.contains_key(guild) && g@ == self@[guild],
                None => !self@.contains_key(guild),
            },
    {
        self.guilds.get(&guild)
    }

    /// The guilds that state is kept for, in no particular order.
    pub fn guild_ids(&self) -> (r: Vec<u64>)
        ensures
            r@.to_set() == self@.dom(),
            r@.no_duplicates(),
    {
        let mut out: Vec<u64> = Vec::new();
        let ghost all = spec_keys_iter(&self.guilds).remaining().unref();
        let ghost mut n: int = 0;
        for g in it: self.guilds.keys()
            invariant
                all.to_set() == self.guilds@.dom(),
                all.no_duplicates(),
                n == it.index(),
                all == it.seq().unref(),
                out@ == all.take(n),
        {
            out.push(*g);
            proof {
                n = n + 1;
            }
        }
        assert(out@ =~= all);
        assert(self@.dom() =~= self.guilds@.dom());
        out
    }

    /// Sets the state kept for `guild`.
    pub fn insert_guild(&mut self, guild: u64, state: GuildState)
        ensures
            final(self)@ == old(self)@.insert(guild, state@),
            state_wf(old(self)@) && state.wf() ==> state_wf(final(self)@),
    {
        let ghost v = state@;
        self.guilds.insert(guild, state);
        assert(self@ =~= old(self)@.insert(guild, v));
    }

    /// The state of `guild`, taken out; an empty one where there was none.
    fn take_guild(&mut self, guild: u64) -> (r: GuildState)
        requires
            state_wf(old(self)@),
        ensures
            final(self)@ == old(self)@.remove(guild),
            r@ == if old(self)@.contains_key(guild) { old(self)@[guild] } else { empty_guild() },
            r.wf(),
            state_wf(final(self)@),
    {
        let r = match self.guilds.remove(&guild) {
            Some(g) => g,
            None => GuildState::new(),
        };
        assert(self@ =~= old(self)@.remove(guild));
        assert(r@.roles =~= empty_guild().roles || old(self)@.contains_key(guild));
        r
    }

    /// Tracks `role` in `guild`; see [`GuildState::add_role`].
    pub fn track_role(&mut self, guild: u64, role: u64, users_with_role: Vec<u64>)
        requires
            state_wf(old(self)@),
        ensures
            state_wf(final(self)@),
            final(self)@ == old(self)@.insert(
                guild,
                with_role(
                    if old(self)@.contains_key(guild) { old(self)@[guild] } else { empty_guild() },
                    role,
                    users_with_role@,
                ),
            ),
    {
        let mut g = self.take_guild(guild);
        let ghost before = g@;
        g.add_role(role, users_with_role);
        assert(g@ == with_role(before, role, users_with_role@));
        self.insert_guild(guild, g);
        assert(self@ =~= old(self)@.insert(guild, with_role(before, role, users_with_role@)));
    }

    /// Stops tracking `role` in `guild`; see [`GuildState::remove_role`].
    /// Nothing changes for a guild without state.
    pub fn untrack_role(&mut self, guild: u64, role: u64)
        requires
            state_wf(old(self)@),
        ensures
            state_wf(final(self)@),
            final(self)@ == if old(self)@.contains_key(guild) {
                old(self)@.insert(guild, without_role(old(self)@[guild], role))
            } else {
                old(self)@
            },
    {
        if !self.guilds.contains_key(&guild) {
            return;
        }
        let mut g = self.take_guild(guild);
        let ghost before = g@;
        g.remove_role(role);
        assert(g@ == without_role(before, role));
        self.insert_guild(guild, g);
        assert(self@ =~= old(self)@.insert(guild, without_role(before, role)));
    }

    /// Records the roles that `user` holds in `guild` as their snapshot, kept
    /// to the tracked ones. Nothing changes for a guild without state.
    pub fn record_member(&mut self, guild: u64, user: u64, roles: &Vec<u64>)
        requires
            state_wf(old(self)@),
        ensures
            state_wf(final(self)@),
            final(self)@ == if old(self)@.contains_key(guild) {
                old(self)@.insert(guild, with_member(old(self)@[guild], user, roles@))
            } else {
                old(self)@
            },
    {
        if !self.guilds.contains_key(&guild) {
            return;
        }
        let mut g = self.take_guild(guild);
        let ghost before = g@;
        let kept = filter_tracked(roles, &g.roles);
        proof {
            lemma_tracked_of(roles@, before.roles);
        }
        g.set_user_roles(user, kept);
        assert(g@ == with_member(before, user, roles@));
        self.insert_guild(guild, g);
        assert(self@ =~= old(self)@.insert(guild, with_member(before, user, roles@)));
    }
}

pub proof fn lemma_tracked_of(s: Seq<u64>, roles: Set<u64>)
    ensures
        forall|i: int| 0 <= i < tracked_of(s, roles).len() ==> roles.contains(
            #[trigger] tracked_of(s, roles)[i],
        ),
    decreases s.len(),
{
    if s.len() > 0 {
        lemma_tracked_of(s.drop_last(), roles);
        let p = tracked_of(s.drop_last(), roles);
        assert forall|i: int| 0 <= i < tracked_of(s, roles).len() implies roles.contains(
            #[trigger] tracked_of(s, roles)[i],
        ) by {
            if i < p.len() {
                assert(tracked_of(s, roles)[i] == p[i]);
            }
        }
    }
}

impl Persistable for State {
    open spec fn initial_view() -> Map<u64, GuildView> {
        Map::empty()
    }

    fn initial() -> (r: State) {
        State::new()
    }

    fn snapshot(&self) -> (r: State) {
        let r = State { guilds: self.guilds.clone() };
        assert(r@ =~= self@);
        r
    }

    fn same(&self, other: &State) -> (r: bool) {
        if self.guilds.len() != other.guilds.len() {
            proof {
                if self@ == other@ {
                    assert(self.guilds@.dom() =~= self@.dom());
                    assert(other.guilds@.dom() =~= other@.dom());
                }
            }
            return false;
        }
        let ghost keys = spec_keys_iter(&self.guilds).remaining().unref();
        let ghost mut m: int = 0;
        for guild in it: self.guilds.keys()
            invariant
                keys.to_set() == self.guilds@.dom(),
                keys.no_duplicates(),
                m == it.index(),
                keys == it.seq().unref(),
                self.guilds@.len() == other.guilds@.len(),
                forall|i: int| 0 <= i < m ==> other.guilds@.contains_key(#[trigger] keys[i])
                    && other.guilds@[keys[i]]@ == self.guilds@[keys[i]]@,
        {
            proof {
                assert(keys[m] == *guild);
            }
            match other.guilds.get(guild) {
                Some(theirs) => {
                    if !self.guilds.get(guild).unwrap().same(theirs) {
                        proof {
                            assert(self@[*guild] != other@[*guild]);
                        }
                        return false;
                    }
                },
                None => {
                    proof {
                        assert(self@.contains_key(*guild));
                        assert(!other@.contains_key(*guild));
                    }
                    return false;
                },
            }
            proof {
                m = m + 1;
            }
        }
        proof {
            assert forall|x: u64| #[trigger] self.guilds@.contains_key(x) implies other.guilds@.contains_key(x)
                && other.guilds@[x]@ == self.guilds@[x]@ by {
                assert(keys.to_set().contains(x));
                let i = choose|i: int| 0 <= i < keys.len() && keys[i] == x;
            }
            vstd::set_lib::lemma_subset_equality(self.guilds@.dom(), other.guilds@.dom());
            assert(self@ =~= other@);
        }
        true
    }
}

/// Striking a tracked role keeps a guild's invariants.
proof fn lemma_guild_stripped(g: GuildView, role: u64)
    requires
        guild_wf(g),
    ensures
        guild_wf(GuildView { roles: g.roles.remove(role), users: stripped(g.users, role) }),
{
    let s = stripped(g.users, role);
    assert forall|u: u64, i: int| s.contains_key(u) && 0 <= i < s[u].len() implies g.roles.remove(
        role,
    ).contains(#[trigger] s[u][i]) by {
        lemma_without(g.users[u], role);
        let j = choose|j: int| 0 <= j < g.users[u].len() && g.users[u][j] == s[u][i];
        assert(g.roles.contains(g.users[u][j]));
    }
}

/// What a guild holds for one of its members: the member's roles.
pub struct MemberRoles {
    pub user: u64,
    pub roles: Vec<u64>,
}

pub open spec fn members_view(members: Seq<MemberRoles>) -> Seq<(u64, Seq<u64>)> {
    members.map_values(|m: MemberRoles| (m.user, m.roles@))
}

/// The users among `members` that hold `role`, in order.
pub open spec fn holders(members: Seq<(u64, Seq<u64>)>, role: u64) -> Seq<u64>
    decreases members.len(),
{
    if members.len() == 0 {
        seq![]
    } else {
        let p = holders(members.drop_last(), role);
        if members.last().1.contains(role) {
            p.push(members.last().0)
        } else {
            p
        }
    }
}

fn holds_role(roles: &Vec<u64>, role: u64) -> (r: bool)
    ensures
        r == roles@.contains(role),
{
    let mut i: usize = 0;
    while i < roles.len()
        invariant
            i <= roles.len(),
            forall|j: int| 0 <= j < i ==> roles@[j] != role,
        decreases roles.len() - i,
    {
        if roles[i] == role {
            return true;
        }
        i = i + 1;
    }
    false
}

/// The users among `members` that hold `role`, in the order given.
pub fn users_with_role(members: &Vec<MemberRoles>, role: u64) -> (r: Vec<u64>)
    ensures
        r@ == holders(members_view(members@), role),
{
    let ghost mv = members_view(members@);
    let mut out: Vec<u64> = Vec::new();
    let mut i: usize = 0;
    while i < members.len()
        invariant
            i <= members.len(),
            mv == members_view(members@),
            out@ == holders(mv.take(i as int), role),
        decreases members.len() - i,
    {
        proof {
            assert(mv.take(i + 1).drop_last() =~= mv.take(i as int));
            assert(mv.take(i + 1).last() == (members@[i as int].user, members@[i as int].roles@));
        }
        if holds_role(&members[i].roles, role) {
            out.push(members[i].user);
        }
        i = i + 1;
    }
    assert(mv.take(members.len() as int) =~= mv);
    out
}

/// The guild's state in `m`; an empty one where there is none.
pub open spec fn guild_or_empty(m: Map<u64, GuildView>, guild: u64) -> GuildView {
    if m.contains_key(guild) {
        m[guild]
    } else {
        empty_guild()
    }
}

/// Starts tracking `role` in `guild`, appending it to the snapshots of
/// `users_with_role`, the members that hold it now. The result says whether
/// the store has to be written.
pub fn add_role(store: &mut Persistent<State>, guild: u64, role: u64, users_with_role: Vec<u64>) -> (changed: bool)
    requires
        state_wf(old(store)@),
    ensures
        state_wf(final(store)@),
        final(store)@ == old(store)@.insert(
            guild,
            with_role(guild_or_empty(old(store)@, guild), role, users_with_role@),
        ),
        final(store).path_view() == old(store).path_view(),
        changed == (old(store)@ != final(store)@),
{
    let mut next = store.read().snapshot();
    next.track_role(guild, role, users_with_role);
    store.write(next)
}

/// Stops tracking `role` in `guild`. The result says whether the store has
/// to be written.
pub fn remove_role(store: &mut Persistent<State>, guild: u64, role: u64) -> (changed: bool)
    requires
        state_wf(old(store)@),
    ensures
        state_wf(final(store)@),
        final(store)@ == if old(store)@.contains_key(guild) {
            old(store)@.insert(guild, without_role(old(store)@[guild], role))
        } else {
            old(store)@
        },
        final(store).path_view() == old(store).path_view(),
        changed == (old(store)@ != final(store)@),
{
    let mut next = store.read().snapshot();
    next.untrack_role(guild, role);
    store.write(next)
}

/// A member of `guild` was updated or left, holding `roles`: their snapshot
/// becomes the tracked ones among them. Guilds that track nothing are left
/// alone. The result says whether the store has to be written.
pub fn guild_member_update(store: &mut Persistent<State>, guild: u64, user: u64, roles: &Vec<u64>) -> (changed: bool)
    requires
        state_wf(old(store)@),
    ensures
        state_wf(final(store)@),
        final(store)@ == if old(store)@.contains_key(guild) {
            old(store)@.insert(guild, with_member(old(store)@[guild], user, roles@))
        } else {
            old(store)@
        },
        final(store).path_view() == old(store).path_view(),
        changed == (old(store)@ != final(store)@),
{
    if !store.read().has_guild(guild) {
        return false;
    }
    let mut next = store.read().snapshot();
    next.record_member(guild, user, roles);
    store.write(next)
}

/// What to do for a member who joins a guild.
pub enum JoinAction {
    /// Nothing to restore.
    Nothing,
    /// Roles to restore, once it is known that the bot may manage roles.
    CheckPermission(Vec<u64>),
    /// Roles to grant the member.
    Grant(Vec<u64>),
}

/// Model of a [`JoinAction`].
pub enum JoinView {
    Nothing,
    CheckPermission(Seq<u64>),
    Grant(Seq<u64>),
}

impl View for JoinAction {
    type V = JoinView;

    open spec fn view(&self) -> JoinView {
        match self {
            JoinAction::Nothing => JoinView::Nothing,
            JoinAction::CheckPermission(r) => JoinView::CheckPermission(r@),
            JoinAction::Grant(r) => JoinView::Grant(r@),
        }
    }
}

/// The first step on a join: the member's snapshot, if they have one.
pub open spec fn join_step(m: Map<u64, GuildView>, guild: u64, user: u64) -> JoinView {
    match snapshot_of(m, guild, user) {
        Some(s) => if s.len() > 0 {
            JoinView::CheckPermission(s)
        } else {
            JoinView::Nothing
        },
        None => JoinView::Nothing,
    }
}

/// The second step: grant the snapshot only where the bot may manage roles.
pub open spec fn permission_step(j: JoinView, can_manage_roles: bool) -> JoinView {
    match j {
        JoinView::CheckPermission(s) => if can_manage_roles {
            JoinView::Grant(s)
        } else {
            JoinView::Nothing
        },
        _ => j,
    }
}

/// A member joins `guild`: the roles of their snapshot are to be restored.
pub fn guild_member_addition(state: &State, guild: u64, user: u64) -> (r: JoinAction)
    ensures
        r@ == join_step(state@, guild, user),
{
    match state.guild(guild) {
        Some(g) => {
            let roles = g.user_roles(user);
            if roles.len() > 0 {
                JoinAction::CheckPermission(roles)
            } else {
                JoinAction::Nothing
            }
        },
        None => JoinAction::Nothing,
    }
}

impl JoinAction {
    /// The action once it is known whether the bot may manage roles.
    pub fn with_permission(self, can_manage_roles: bool) -> (r: JoinAction)
        ensures
            r@ == permission_step(self@, can_manage_roles),
    {
        match self {
            JoinAction::CheckPermission(roles) => {
                if can_manage_roles {
                    JoinAction::Grant(roles)
                } else {
                    JoinAction::Nothing
                }
            },
            other => other,
        }
    }
}

/// Once a role stops being tracked, no snapshot holds it and none is empty.
pub proof fn lemma_untracked_role_gone(g: GuildView, role: u64)
    requires
        guild_wf(g),
    ensures
        guild_wf(without_role(g, role)),
        forall|u: u64| #[trigger] without_role(g, role).users.contains_key(u) ==> {
            &&& !without_role(g, role).users[u].contains(role)
            &&& without_role(g, role).users[u].len() > 0
        },
{
    let h = without_role(g, role);
    if g.roles.contains(role) {
        lemma_guild_stripped(g, role);
        assert forall|u: u64| #[trigger] h.users.contains_key(u) implies !h.users[u].contains(role) by {
            lemma_without(g.users[u], role);
        }
    } else {
        assert(h.roles =~= g.roles);
        assert forall|u: u64| #[trigger] h.users.contains_key(u) implies !h.users[u].contains(role) by {
            if h.users[u].contains(role) {
                let i = choose|i: int| 0 <= i < h.users[u].len() && h.users[u][i] == role;
                assert(g.roles.contains(g.users[u][i]));
            }
        }
    }
}

/// A member who rejoins is granted exactly the roles of their snapshot where
/// the bot may manage roles; one without a snapshot is granted nothing.
pub proof fn lemma_rejoin_restores(m: Map<u64, GuildView>, guild: u64, user: u64, can_manage_roles: bool)
    requires
        state_wf(m),
    ensures
        match snapshot_of(m, guild, user) {
            Some(s) => permission_step(join_step(m, guild, user), true) == JoinView::Grant(s),
            None => permission_step(join_step(m, guild, user), can_manage_roles) == JoinView::Nothing,
        },
{
    if m.contains_key(guild) {
        assert(guild_wf(m[guild]));
    }
}

} // verus!
