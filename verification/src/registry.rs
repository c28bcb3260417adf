use vstd::prelude::*;

use crate::error::{OpError, TodoError};
use crate::keys::{derive_item_address, derive_profile_address, item_pda, profile_pda};
use crate::states::{OwnerKey, TodoAccount, UserProfile};

verus! {

/// What one live item looks like to a caller: its text and completion flag.
pub struct ItemModel {
    pub content: Seq<char>,
    pub marked: bool,
}

/// What one live profile looks like to a caller: its counters and its live
/// items, keyed by their immutable single-byte index.
pub struct ProfileModel {
    pub last_todo: u8,
    pub todo_count: u8,
    pub items: Map<u8, ItemModel>,
}

struct ItemEntry {
    address: Vec<u8>,
    item: TodoAccount,
}

struct ProfileEntry {
    address: Vec<u8>,
    profile: UserProfile,
    items: Vec<ItemEntry>,
}

/// The record store itself: every live profile together with its live items,
/// held the way the host holds them — one record per derived address. Its
/// view is a map from owner identity to that owner's [`ProfileModel`].
pub struct Registry {
    profiles: Vec<ProfileEntry>,
}

/// The identity presented for create-profile: the caller establishes itself
/// as the owner of the new profile.
pub struct InitializeUser {
    pub authority: OwnerKey,
}

/// The identities presented for create-item: the caller, and the owner whose
/// profile record the request supplies.
pub struct AddTodo {
    pub authority: OwnerKey,
    pub profile_owner: OwnerKey,
}

/// The identities presented for mark-item: the caller, and the owner whose
/// item record the request supplies.
pub struct MarkTodo {
    pub authority: OwnerKey,
    pub item_owner: OwnerKey,
}

/// The identities presented for delete-item: the caller, and the owner whose
/// item record the request supplies.
pub struct DeleteTodo {
    pub authority: OwnerKey,
    pub item_owner: OwnerKey,
}

spec fn item_model(e: ItemEntry) -> ItemModel {
    ItemModel { content: e.item.content@, marked: e.item.marked }
}

spec fn has_item(s: Seq<ItemEntry>, key: u8) -> bool {
    exists|i: int| 0 <= i < s.len() && (#[trigger] s[i]).item.idx == key
}

spec fn item_index_of(s: Seq<ItemEntry>, key: u8) -> int {
    choose|i: int| 0 <= i < s.len() && (#[trigger] s[i]).item.idx == key
}

spec fn items_view(s: Seq<ItemEntry>) -> Map<u8, ItemModel> {
    Map::new(|key: u8| has_item(s, key), |key: u8| item_model(s[item_index_of(s, key)]))
}

spec fn distinct_item_keys(s: Seq<ItemEntry>) -> bool {
    forall|i: int, j: int|
        0 <= i < j < s.len() ==> (#[trigger] s[i]).item.idx != (#[trigger] s[j]).item.idx
}

spec fn profile_model(e: ProfileEntry) -> ProfileModel {
    ProfileModel {
        last_todo: e.profile.last_todo,
        todo_count: e.profile.todo_count,
        items: items_view(e.items@),
    }
}

spec fn has_profile(s: Seq<ProfileEntry>, key: Seq<u8>) -> bool {
    exists|i: int| 0 <= i < s.len() && (#[trigger] s[i]).profile.authority@ == key
}

spec fn profile_index_of(s: Seq<ProfileEntry>, key: Seq<u8>) -> int {
    choose|i: int| 0 <= i < s.len() && (#[trigger] s[i]).profile.authority@ == key
}

spec fn profiles_view(s: Seq<ProfileEntry>) -> Map<Seq<u8>, ProfileModel> {
    Map::new(
        |key: Seq<u8>| has_profile(s, key),
        |key: Seq<u8>| profile_model(s[profile_index_of(s, key)]),
    )
}

spec fn distinct_profile_keys(s: Seq<ProfileEntry>) -> bool {
    forall|i: int, j: int|
        0 <= i < j < s.len() ==> (#[trigger] s[i]).profile.authority@ != (#[trigger] s[j]).profile.authority@
}

impl ItemEntry {
    spec fn wf(self, owner: Seq<u8>, last_todo: u8) -> bool {
        &&& self.item.authority@ == owner
        &&& self.item.idx < last_todo
        &&& item_pda(owner, self.item.idx) == Some(self.address@)
    }
}

impl ProfileEntry {
    spec fn key(self) -> Seq<u8> {
        self.profile.authority@
    }

    spec fn wf(self) -> bool {
        &&& profile_pda(self.key()) == Some(self.address@)
        &&& self.items@.len() == self.profile.todo_count as int
        &&& self.profile.todo_count <= self.profile.last_todo
        &&& forall|i: int|
            0 <= i < self.items@.len() ==> (#[trigger] self.items@[i]).wf(
                self.key(),
                self.profile.last_todo,
            )
        &&& distinct_item_keys(self.items@)
    }
}

proof fn lemma_item_index(s: Seq<ItemEntry>, i: int)
    requires
        distinct_item_keys(s),
        0 <= i < s.len(),
    ensures
        has_item(s, s[i].item.idx),
        item_index_of(s, s[i].item.idx) == i,
{
    let key = s[i].item.idx;
    assert(has_item(s, key));
    let j = item_index_of(s, key);
    assert(0 <= j < s.len() && s[j].item.idx == key);
    if j < i {
        assert(s[j].item.idx != s[i].item.idx);
    } else if i < j {
        assert(s[i].item.idx != s[j].item.idx);
    }
}

proof fn lemma_items_view_push(s: Seq<ItemEntry>, e: ItemEntry)
    requires
        distinct_item_keys(s),
        !has_item(s, e.item.idx),
    ensures
        distinct_item_keys(s.push(e)),
        items_view(s.push(e)) == items_view(s).insert(e.item.idx, item_model(e)),
{
    let t = s.push(e);
    assert forall|i: int, j: int| 0 <= i < j < t.len() implies t[i].item.idx != t[j].item.idx by {
        if j < s.len() {
            assert(s[i].item.idx != s[j].item.idx);
        } else {
            assert(t[j] == e);
            assert(t[i] == s[i]);
            if s[i].item.idx == e.item.idx {
                assert(has_item(s, e.item.idx));
            }
        }
    }
    assert forall|key: u8| #[trigger] has_item(t, key) implies has_item(s, key) || key
        == e.item.idx by {
        let i = choose|i: int| 0 <= i < t.len() && (#[trigger] t[i]).item.idx == key;
        if i < s.len() {
            assert(s[i].item.idx == key);
        }
    }
    assert forall|key: u8| has_item(s, key) implies #[trigger] has_item(t, key) by {
        let i = choose|i: int| 0 <= i < s.len() && (#[trigger] s[i]).item.idx == key;
        assert(t[i].item.idx == key);
    }
    assert(t[s.len() as int] == e);
    assert(has_item(t, e.item.idx));
    assert forall|key: u8| #[trigger] has_item(t, key) implies item_model(
        t[item_index_of(t, key)],
    ) == items_view(s).insert(e.item.idx, item_model(e))[key] by {
        let i = item_index_of(t, key);
        assert(0 <= i < t.len() && t[i].item.idx == key);
        if key == e.item.idx {
            if i < s.len() {
                assert(has_item(s, key));
            }
            assert(t[i] == e);
        } else {
            assert(i < s.len());
            assert(t[i] == s[i]);
            lemma_item_index(s, i);
            assert(has_item(s, key));
            assert(item_index_of(s, key) == i);
        }
    }
    assert(items_view(t) =~= items_view(s).insert(e.item.idx, item_model(e)));
}

proof fn lemma_items_view_update(s: Seq<ItemEntry>, t: Seq<ItemEntry>, i: int)
    requires
        distinct_item_keys(s),
        0 <= i < s.len(),
        t.len() == s.len(),
        forall|j: int| 0 <= j < s.len() && j != i ==> t[j] == s[j],
        t[i].item.idx == s[i].item.idx,
    ensures
        distinct_item_keys(t),
        items_view(t) == items_view(s).insert(s[i].item.idx, item_model(t[i])),
{
    let key = s[i].item.idx;
    assert forall|a: int, b: int| 0 <= a < b < t.len() implies t[a].item.idx != t[b].item.idx by {
        assert(t[a].item.idx == s[a].item.idx);
        assert(t[b].item.idx == s[b].item.idx);
        assert(s[a].item.idx != s[b].item.idx);
    }
    assert forall|k: u8| #[trigger] has_item(t, k) == has_item(s, k) by {
        if has_item(t, k) {
            let a = choose|a: int| 0 <= a < t.len() && (#[trigger] t[a]).item.idx == k;
            assert(s[a].item.idx == k);
            assert(has_item(s, k));
        }
        if has_item(s, k) {
            let a = choose|a: int| 0 <= a < s.len() && (#[trigger] s[a]).item.idx == k;
            assert(t[a].item.idx == k);
            assert(has_item(t, k));
        }
    }
    assert forall|k: u8| #[trigger] has_item(t, k) implies item_model(t[item_index_of(t, k)])
        == items_view(s).insert(key, item_model(t[i]))[k] by {
        let a = item_index_of(t, k);
        assert(0 <= a < t.len() && t[a].item.idx == k);
        if k == key {
            if a != i {
                assert(t[a] == s[a]);
                assert(s[a].item.idx == s[i].item.idx);
                lemma_item_index(s, a);
                lemma_item_index(s, i);
            }
            assert(a == i);
        } else {
            assert(a != i);
            assert(t[a] == s[a]);
            lemma_item_index(s, a);
            assert(item_index_of(s, k) == a);
        }
    }
    assert(items_view(t) =~= items_view(s).insert(key, item_model(t[i])));
}

proof fn lemma_items_view_remove(s: Seq<ItemEntry>, i: int)
    requires
        distinct_item_keys(s),
        0 <= i < s.len(),
    ensures
        distinct_item_keys(s.remove(i)),
        !has_item(s.remove(i), s[i].item.idx),
        items_view(s.remove(i)) == items_view(s).remove(s[i].item.idx),
{
    let key = s[i].item.idx;
    let t = s.remove(i);
    assert forall|a: int, b: int| 0 <= a < b < t.len() implies t[a].item.idx != t[b].item.idx by {
        let a0: int = if a < i { a } else { a + 1 };
        let b0: int = if b < i { b } else { b + 1 };
        assert(t[a] == s[a0]);
        assert(t[b] == s[b0]);
        assert(s[a0].item.idx != s[b0].item.idx);
    }
    assert forall|a: int| 0 <= a < t.len() implies t[a].item.idx != key by {
        let a0: int = if a < i { a } else { a + 1 };
        assert(t[a] == s[a0]);
        assert(a0 != i);
        if a0 < i {
            assert(s[a0].item.idx != s[i].item.idx);
        } else {
            assert(s[i].item.idx != s[a0].item.idx);
        }
    }
    assert forall|k: u8| #[trigger] has_item(t, k) implies has_item(s, k) && k != key by {
        let a = choose|a: int| 0 <= a < t.len() && (#[trigger] t[a]).item.idx == k;
        let a0: int = if a < i { a } else { a + 1 };
        assert(t[a] == s[a0]);
        assert(s[a0].item.idx == k);
        assert(has_item(s, k));
    }
    assert forall|k: u8| has_item(s, k) && k != key implies #[trigger] has_item(t, k) by {
        let a = choose|a: int| 0 <= a < s.len() && (#[trigger] s[a]).item.idx == k;
        assert(a != i);
        let a1: int = if a < i { a } else { a - 1 };
        assert(t[a1] == s[a]);
        assert(t[a1].item.idx == k);
    }
    assert forall|k: u8| #[trigger] has_item(t, k) implies item_model(t[item_index_of(t, k)])
        == items_view(s)[k] by {
        let a = item_index_of(t, k);
        assert(0 <= a < t.len() && t[a].item.idx == k);
        let a0: int = if a < i { a } else { a + 1 };
        assert(t[a] == s[a0]);
        lemma_item_index(s, a0);
        assert(item_index_of(s, k) == a0);
    }
    assert(items_view(t) =~= items_view(s).remove(key));
}

proof fn lemma_profile_index(s: Seq<ProfileEntry>, i: int)
    requires
        distinct_profile_keys(s),
        0 <= i < s.len(),
    ensures
        has_profile(s, s[i].key()),
        profile_index_of(s, s[i].key()) == i,
{
    let key = s[i].key();
    assert(has_profile(s, key));
    let j = profile_index_of(s, key);
    assert(0 <= j < s.len() && s[j].profile.authority@ == key);
    if j < i {
        assert(s[j].profile.authority@ != s[i].profile.authority@);
    } else if i < j {
        assert(s[i].profile.authority@ != s[j].profile.authority@);
    }
}

proof fn lemma_profiles_view_push(s: Seq<ProfileEntry>, e: ProfileEntry)
    requires
        distinct_profile_keys(s),
        !has_profile(s, e.key()),
    ensures
        distinct_profile_keys(s.push(e)),
        profiles_view(s.push(e)) == profiles_view(s).insert(e.key(), profile_model(e)),
{
    let t = s.push(e);
    assert forall|i: int, j: int| 0 <= i < j < t.len() implies t[i].profile.authority@
        != t[j].profile.authority@ by {
        if j < s.len() {
            assert(s[i].profile.authority@ != s[j].profile.authority@);
        } else {
            assert(t[j] == e);
            assert(t[i] == s[i]);
            if s[i].profile.authority@ == e.key() {
                assert(has_profile(s, e.key()));
            }
        }
    }
    assert forall|key: Seq<u8>| #[trigger] has_profile(t, key) implies has_profile(s, key) || key
        == e.key() by {
        let i = choose|i: int| 0 <= i < t.len() && (#[trigger] t[i]).profile.authority@ == key;
        if i < s.len() {
            assert(s[i].profile.authority@ == key);
        }
    }
    assert forall|key: Seq<u8>| has_profile(s, key) implies #[trigger] has_profile(t, key) by {
        let i = choose|i: int| 0 <= i < s.len() && (#[trigger] s[i]).profile.authority@ == key;
        assert(t[i].profile.authority@ == key);
    }
    assert(t[s.len() as int] == e);
    assert(has_profile(t, e.key()));
    assert forall|key: Seq<u8>| #[trigger] has_profile(t, key) implies profile_model(
        t[profile_index_of(t, key)],
    ) == profiles_view(s).insert(e.key(), profile_model(e))[key] by {
        let i = profile_index_of(t, key);
        assert(0 <= i < t.len() && t[i].profile.authority@ == key);
        if key == e.key() {
            if i < s.len() {
                assert(has_profile(s, key));
            }
            assert(t[i] == e);
        } else {
            assert(i < s.len());
            assert(t[i] == s[i]);
            lemma_profile_index(s, i);
            assert(profile_index_of(s, key) == i);
        }
    }
    assert(profiles_view(t) =~= profiles_view(s).insert(e.key(), profile_model(e)));
}

proof fn lemma_profiles_view_update(s: Seq<ProfileEntry>, t: Seq<ProfileEntry>, i: int)
    requires
        distinct_profile_keys(s),
        0 <= i < s.len(),
        t.len() == s.len(),
        forall|j: int| 0 <= j < s.len() && j != i ==> t[j] == s[j],
        t[i].profile.authority@ == s[i].profile.authority@,
    ensures
        distinct_profile_keys(t),
        profiles_view(t) == profiles_view(s).insert(s[i].key(), profile_model(t[i])),
{
    let key = s[i].key();
    assert forall|a: int, b: int| 0 <= a < b < t.len() implies t[a].profile.authority@
        != t[b].profile.authority@ by {
        assert(t[a].profile.authority@ == s[a].profile.authority@);
        assert(t[b].profile.authority@ == s[b].profile.authority@);
        assert(s[a].profile.authority@ != s[b].profile.authority@);
    }
    assert forall|k: Seq<u8>| #[trigger] has_profile(t, k) == has_profile(s, k) by {
        if has_profile(t, k) {
            let a = choose|a: int| 0 <= a < t.len() && (#[trigger] t[a]).profile.authority@ == k;
            assert(s[a].profile.authority@ == k);
            assert(has_profile(s, k));
        }
        if has_profile(s, k) {
            let a = choose|a: int| 0 <= a < s.len() && (#[trigger] s[a]).profile.authority@ == k;
            assert(t[a].profile.authority@ == k);
            assert(has_profile(t, k));
        }
    }
    assert forall|k: Seq<u8>| #[trigger] has_profile(t, k) implies profile_model(
        t[profile_index_of(t, k)],
    ) == profiles_view(s).insert(key, profile_model(t[i]))[k] by {
        let a = profile_index_of(t, k);
        assert(0 <= a < t.len() && t[a].profile.authority@ == k);
        if k == key {
            if a != i {
                assert(t[a] == s[a]);
                assert(s[a].profile.authority@ == s[i].profile.authority@);
                lemma_profile_index(s, a);
                lemma_profile_index(s, i);
            }
            assert(a == i);
        } else {
            assert(a != i);
            assert(t[a] == s[a]);
            lemma_profile_index(s, a);
            assert(profile_index_of(s, k) == a);
        }
    }
    assert(profiles_view(t) =~= profiles_view(s).insert(key, profile_model(t[i])));
}

/// The authorization guard: succeeds exactly when the caller presenting a
/// request is the owner of the referenced record. The host has already
/// authenticated the caller's identity; only the comparison happens here.
/// Every mutating operation invokes this guard before touching any record.
pub fn authorize(caller: &OwnerKey, owner: &OwnerKey) -> (r: Result<(), TodoError>)
    ensures
        (r is Ok) == (caller@ == owner@),
        caller@ != owner@ ==> r == Err::<(), TodoError>(TodoError::Unauthorized),
{
    if caller.eq_key(owner) {
        Ok(())
    } else {
        Err(TodoError::Unauthorized)
    }
}

fn find_item(items: &Vec<ItemEntry>, key: u8) -> (r: Option<usize>)
    ensures
        r matches Some(i) ==> i < items@.len() && items@[i as int].item.idx == key,
        r is None ==> !has_item(items@, key),
{
    let mut i: usize = 0;
    while i < items.len()
        invariant
            i <= items@.len(),
            forall|j: int| 0 <= j < i ==> (#[trigger] items@[j]).item.idx != key,
        decreases items@.len() - i,
    {
        if items[i].item.idx == key {
            return Some(i);
        }
        i += 1;
    }
    None
}

impl Registry {
    /// Every stored record is well formed: each profile's address is the one
    /// derived from its owner, owners are pairwise distinct, item indices are
    /// pairwise distinct and lie strictly below the profile's next index, and
    /// the live-item count matches the number of live items.
    pub closed spec fn wf(self) -> bool {
        &&& forall|i: int| 0 <= i < self.profiles@.len() ==> (#[trigger] self.profiles@[i]).wf()
        &&& distinct_profile_keys(self.profiles@)
    }

    /// An empty store, with no profile and no item.
    pub fn new() -> (r: Registry)
        ensures
            r.wf(),
            r@ == Map::<Seq<u8>, ProfileModel>::empty(),
    {
        let r = Registry { profiles: Vec::new() };
        proof {
            assert(r@ =~= Map::<Seq<u8>, ProfileModel>::empty());
        }
        r
    }

    fn find_profile(&self, owner: &OwnerKey) -> (r: Option<usize>)
        ensures
            r matches Some(i) ==> i < self.profiles@.len() && self.profiles@[i as int].key()
                == owner@,
            r is None ==> !has_profile(self.profiles@, owner@),
    {
        let mut i: usize = 0;
        while i < self.profiles.len()
            invariant
                i <= self.profiles@.len(),
                forall|j: int| 0 <= j < i ==> (#[trigger] self.profiles@[j]).profile.authority@
                    != owner@,
            decreases self.profiles@.len() - i,
        {
            if self.profiles[i].profile.authority.eq_key(owner) {
                return Some(i);
            }
            i += 1;
        }
        None
    }

    /// create-profile: allocates and initializes the caller's profile with
    /// both counters at zero. Fails with the host's AlreadyExists error when
    /// a profile is already live at the derived address, and with NotAllowed
    /// when no address can be derived for the caller at all.
    pub fn initialize_user(&mut self, ctx: InitializeUser) -> (r: Result<(), OpError>)
        requires
            old(self).wf(),
        ensures
            final(self).wf(),
            (r is Ok) == (!old(self)@.contains_key(ctx.authority@) && profile_pda(ctx.authority@)
                is Some),
            r is Ok ==> final(self)@ == old(self)@.insert(
                ctx.authority@,
                (ProfileModel { last_todo: 0, todo_count: 0, items: Map::empty() }),
            ),
            r is Err ==> final(self)@ == old(self)@,
            (r == Err::<(), OpError>(OpError::AlreadyExists)) == old(self)@.contains_key(
                ctx.authority@,
            ),
            (r == Err::<(), OpError>(OpError::Program(TodoError::NotAllowed))) == (!old(
                self,
            )@.contains_key(ctx.authority@) && profile_pda(ctx.authority@) is None),
    {
        proof {
            self.lemma_view_contains();
        }
        match self.find_profile(&ctx.authority) {
            Some(_) => {
                return Err(OpError::AlreadyExists);
            },
            None => {},
        }
        let address = match derive_profile_address(&ctx.authority) {
            Some(a) => a,
            None => {
                return Err(OpError::Program(TodoError::NotAllowed));
            },
        };
        let ghost pre = self.profiles@;
        let entry = ProfileEntry {
            address,
            profile: UserProfile { authority: ctx.authority, last_todo: 0, todo_count: 0 },
            items: Vec::new(),
        };
        proof {
            lemma_profiles_view_push(pre, entry);
            assert(items_view(entry.items@) =~= Map::<u8, ItemModel>::empty());
        }
        self.profiles.push(entry);
        Ok(())
    }

    /// create-item: verifies that the supplied profile record belongs to the
    /// caller, allocates the item at index `last_todo`, and advances both
    /// counters by one with overflow checking. The new item's address is the
    /// one derived from the caller and the assigned index; the slot there is
    /// never occupied, because indices are never reused.
    pub fn add_todo(&mut self, ctx: AddTodo, content: String) -> (r: Result<(), OpError>)
        requires
            old(self).wf(),
        ensures
            final(self).wf(),
            (r is Ok) == (old(self)@.contains_key(ctx.profile_owner@) && ctx.profile_owner@
                == ctx.authority@ && item_pda(
                ctx.authority@,
                old(self)@[ctx.profile_owner@].last_todo,
            ) is Some && old(self)@[ctx.profile_owner@].last_todo < 255),
            r is Ok ==> final(self)@ == old(self)@.insert(
                ctx.profile_owner@,
                (ProfileModel {
                    last_todo: (old(self)@[ctx.profile_owner@].last_todo + 1) as u8,
                    todo_count: (old(self)@[ctx.profile_owner@].todo_count + 1) as u8,
                    items: old(self)@[ctx.profile_owner@].items.insert(
                        old(self)@[ctx.profile_owner@].last_todo,
                        (ItemModel { content: content@, marked: false }),
                    ),
                }),
            ),
            r is Err ==> final(self)@ == old(self)@,
            (r == Err::<(), OpError>(OpError::NotFound)) == !old(self)@.contains_key(
                ctx.profile_owner@,
            ),
            (r == Err::<(), OpError>(OpError::Program(TodoError::Unauthorized))) == (old(
                self,
            )@.contains_key(ctx.profile_owner@) && ctx.profile_owner@ != ctx.authority@),
            (r == Err::<(), OpError>(OpError::Program(TodoError::NotAllowed))) == (old(
                self,
            )@.contains_key(ctx.profile_owner@) && ctx.profile_owner@ == ctx.authority@
                && item_pda(ctx.authority@, old(self)@[ctx.profile_owner@].last_todo) is None),
            (r == Err::<(), OpError>(OpError::Program(TodoError::MathOverflow))) == (old(
                self,
            )@.contains_key(ctx.profile_owner@) && ctx.profile_owner@ == ctx.authority@
                && item_pda(ctx.authority@, old(self)@[ctx.profile_owner@].last_todo) is Some
                && old(self)@[ctx.profile_owner@].last_todo == 255),
    {
        proof {
            self.lemma_view_contains();
        }
        let pi = match self.find_profile(&ctx.profile_owner) {
            Some(i) => i,
            None => {
                return Err(OpError::NotFound);
            },
        };
        proof {
            lemma_profile_index(self.profiles@, pi as int);
        }
        match authorize(&ctx.authority, &self.profiles[pi].profile.authority) {
            Ok(()) => {},
            Err(e) => {
                return Err(OpError::Program(e));
            },
        }
        let last = self.profiles[pi].profile.last_todo;
        let address = match derive_item_address(&ctx.authority, last) {
            Some(a) => a,
            None => {
                return Err(OpError::Program(TodoError::NotAllowed));
            },
        };
        let new_last = match last.checked_add(1) {
            Some(v) => v,
            None => {
                return Err(OpError::Program(TodoError::MathOverflow));
            },
        };
        let new_count = match self.profiles[pi].profile.todo_count.checked_add(1) {
            Some(v) => v,
            None => {
                return Err(OpError::Program(TodoError::MathOverflow));
            },
        };
        let ghost pre = self.profiles@;
        let item_entry = ItemEntry {
            address,
            item: TodoAccount { authority: ctx.authority, idx: last, content, marked: false },
        };
        proof {
            if has_item(pre[pi as int].items@, last) {
                let a = choose|a: int|
                    0 <= a < pre[pi as int].items@.len() && (#[trigger] pre[pi as int].items@[a]).item.idx
                        == last;
                assert(pre[pi as int].items@[a].wf(pre[pi as int].key(), last));
            }
            lemma_items_view_push(pre[pi as int].items@, item_entry);
        }
        self.profiles[pi].profile.last_todo = new_last;
        self.profiles[pi].profile.todo_count = new_count;
        self.profiles[pi].items.push(item_entry);
        proof {
            assert(self.profiles@.len() == pre.len());
            assert(forall|j: int|
                0 <= j < pre.len() && j != pi as int ==> self.profiles@[j] == pre[j]);
            assert(self.profiles@[pi as int].items@ =~= pre[pi as int].items@.push(item_entry));
            lemma_profiles_view_update(pre, self.profiles@, pi as int);
            assert(profile_model(self.profiles@[pi as int]) == (ProfileModel {
                last_todo: new_last,
                todo_count: new_count,
                items: items_view(pre[pi as int].items@).insert(last, item_model(item_entry)),
            }));
        }
        Ok(())
    }

    /// mark-item: verifies that the referenced item belongs to the caller and
    /// sets its done flag. Re-marking an already marked item is rejected with
    /// AlreadyMarked, so callers can detect double submission.
    pub fn mark_todo(&mut self, ctx: MarkTodo, todo_idx: u8) -> (r: Result<(), OpError>)
        requires
            old(self).wf(),
        ensures
            final(self).wf(),
            (r is Ok) == (old(self)@.contains_key(ctx.item_owner@)
                && old(self)@[ctx.item_owner@].items.contains_key(todo_idx) && ctx.item_owner@
                == ctx.authority@ && !old(self)@[ctx.item_owner@].items[todo_idx].marked),
            r is Ok ==> final(self)@ == old(self)@.insert(
                ctx.item_owner@,
                (ProfileModel {
                    last_todo: old(self)@[ctx.item_owner@].last_todo,
                    todo_count: old(self)@[ctx.item_owner@].todo_count,
                    items: old(self)@[ctx.item_owner@].items.insert(
                        todo_idx,
                        (ItemModel {
                            content: old(self)@[ctx.item_owner@].items[todo_idx].content,
                            marked: true,
                        }),
                    ),
                }),
            ),
            r is Err ==> final(self)@ == old(self)@,
            (r == Err::<(), OpError>(OpError::NotFound)) == (!old(self)@.contains_key(
                ctx.item_owner@,
            ) || !old(self)@[ctx.item_owner@].items.contains_key(todo_idx)),
            (r == Err::<(), OpError>(OpError::Program(TodoError::Unauthorized))) == (old(
                self,
            )@.contains_key(ctx.item_owner@) && old(self)@[ctx.item_owner@].items.contains_key(
                todo_idx,
            ) && ctx.item_owner@ != ctx.authority@),
            (r == Err::<(), OpError>(OpError::Program(TodoError::AlreadyMarked))) == (old(
                self,
            )@.contains_key(ctx.item_owner@) && old(self)@[ctx.item_owner@].items.contains_key(
                todo_idx,
            ) && ctx.item_owner@ == ctx.authority@
                && old(self)@[ctx.item_owner@].items[todo_idx].marked),
    {
        proof {
            self.lemma_view_contains();
        }
        let pi = match self.find_profile(&ctx.item_owner) {
            Some(i) => i,
            None => {
                return Err(OpError::NotFound);
            },
        };
        proof {
            lemma_profile_index(self.profiles@, pi as int);
            self.lemma_view_items(pi as int);
        }
        let ii = match find_item(&self.profiles[pi].items, todo_idx) {
            Some(i) => i,
            None => {
                return Err(OpError::NotFound);
            },
        };
        proof {
            lemma_item_index(self.profiles@[pi as int].items@, ii as int);
        }
        match authorize(&ctx.authority, &self.profiles[pi].items[ii].item.authority) {
            Ok(()) => {},
            Err(e) => {
                return Err(OpError::Program(e));
            },
        }
        if self.profiles[pi].items[ii].item.marked {
            return Err(OpError::Program(TodoError::AlreadyMarked));
        }
        let ghost pre = self.profiles@;
        let ghost pre_items = pre[pi as int].items@;
        self.profiles[pi].items[ii].item.marked = true;
        proof {
            assert(self.profiles@.len() == pre.len());
            assert(forall|j: int|
                0 <= j < pre.len() && j != pi as int ==> self.profiles@[j] == pre[j]);
            let post_items = self.profiles@[pi as int].items@;
            assert(post_items.len() == pre_items.len());
            assert(forall|j: int|
                0 <= j < pre_items.len() && j != ii as int ==> post_items[j] == pre_items[j]);
            lemma_items_view_update(pre_items, post_items, ii as int);
            lemma_profiles_view_update(pre, self.profiles@, pi as int);
        }
        Ok(())
    }

    /// delete-item: verifies that the referenced item belongs to the caller,
    /// destroys the record, and decrements the live-item count with underflow
    /// checking. The next unused index is not touched: indices are never
    /// reused, so the deleted address never holds a record again.
    pub fn delete_todo(&mut self, ctx: DeleteTodo, todo_idx: u8) -> (r: Result<(), OpError>)
        requires
            old(self).wf(),
        ensures
            final(self).wf(),
            (r is Ok) == (old(self)@.contains_key(ctx.item_owner@)
                && old(self)@[ctx.item_owner@].items.contains_key(todo_idx) && ctx.item_owner@
                == ctx.authority@),
            r is Ok ==> final(self)@ == old(self)@.insert(
                ctx.item_owner@,
                (ProfileModel {
                    last_todo: old(self)@[ctx.item_owner@].last_todo,
                    todo_count: (old(self)@[ctx.item_owner@].todo_count - 1) as u8,
                    items: old(self)@[ctx.item_owner@].items.remove(todo_idx),
                }),
            ),
            r is Err ==> final(self)@ == old(self)@,
            (r == Err::<(), OpError>(OpError::NotFound)) == (!old(self)@.contains_key(
                ctx.item_owner@,
            ) || !old(self)@[ctx.item_owner@].items.contains_key(todo_idx)),
            (r == Err::<(), OpError>(OpError::Program(TodoError::Unauthorized))) == (old(
                self,
            )@.contains_key(ctx.item_owner@) && old(self)@[ctx.item_owner@].items.contains_key(
                todo_idx,
            ) && ctx.item_owner@ != ctx.authority@),
    {
        proof {
            self.lemma_view_contains();
        }
        let pi = match self.find_profile(&ctx.item_owner) {
            Some(i) => i,
            None => {
                return Err(OpError::NotFound);
            },
        };
        proof {
            lemma_profile_index(self.profiles@, pi as int);
            self.lemma_view_items(pi as int);
        }
        let ii = match find_item(&self.profiles[pi].items, todo_idx) {
            Some(i) => i,
            None => {
                return Err(OpError::NotFound);
            },
        };
        proof {
            lemma_item_index(self.profiles@[pi as int].items@, ii as int);
        }
        match authorize(&ctx.authority, &self.profiles[pi].items[ii].item.authority) {
            Ok(()) => {},
            Err(e) => {
                return Err(OpError::Program(e));
            },
        }
        let new_count = match self.profiles[pi].profile.todo_count.checked_sub(1) {
            Some(v) => v,
            None => {
                return Err(OpError::Program(TodoError::MathOverflow));
            },
        };
        let ghost pre = self.profiles@;
        let ghost pre_items = pre[pi as int].items@;
        proof {
            lemma_items_view_remove(pre_items, ii as int);
        }
        self.profiles[pi].profile.todo_count = new_count;
        let _removed = self.profiles[pi].items.remove(ii);
        proof {
            assert(self.profiles@.len() == pre.len());
            assert(forall|j: int|
                0 <= j < pre.len() && j != pi as int ==> self.profiles@[j] == pre[j]);
            assert(self.profiles@[pi as int].items@ =~= pre_items.remove(ii as int));
            lemma_profiles_view_update(pre, self.profiles@, pi as int);
        }
        Ok(())
    }

    proof fn lemma_view_contains(&self)
        requires
            self.wf(),
        ensures
            forall|k: Seq<u8>| #[trigger] self@.contains_key(k) == has_profile(self.profiles@, k),
            forall|i: int|
                0 <= i < self.profiles@.len() ==> self@[(#[trigger] self.profiles@[i]).key()]
                    == profile_model(self.profiles@[i]),
    {
        assert forall|i: int| 0 <= i < self.profiles@.len() implies self@[(
        #[trigger] self.profiles@[i]).key()] == profile_model(self.profiles@[i]) by {
            lemma_profile_index(self.profiles@, i);
        }
    }

    proof fn lemma_view_items(&self, i: int)
        requires
            self.wf(),
            0 <= i < self.profiles@.len(),
        ensures
            forall|k: u8| #[trigger] self@[self.profiles@[i].key()].items.contains_key(k)
                == has_item(self.profiles@[i].items@, k),
    {
        lemma_profile_index(self.profiles@, i);
    }

    /// Whether a profile is live for this owner: the inverse existence check
    /// of the derived profile address.
    pub fn profile_exists(&self, owner: &OwnerKey) -> (r: bool)
        requires
            self.wf(),
        ensures
            r == self@.contains_key(owner@),
    {
        proof {
            self.lemma_view_contains();
        }
        self.find_profile(owner).is_some()
    }

    /// The owner's next unused item index, when the profile is live.
    pub fn last_index(&self, owner: &OwnerKey) -> (r: Option<u8>)
        requires
            self.wf(),
        ensures
            (r is Some) == self@.contains_key(owner@),
            r matches Some(v) ==> v == self@[owner@].last_todo,
    {
        proof {
            self.lemma_view_contains();
        }
        match self.find_profile(owner) {
            Some(pi) => {
                proof {
                    lemma_profile_index(self.profiles@, pi as int);
                }
                Some(self.profiles[pi].profile.last_todo)
            },
            None => None,
        }
    }

    /// The owner's live-item count, when the profile is live.
    pub fn item_count(&self, owner: &OwnerKey) -> (r: Option<u8>)
        requires
            self.wf(),
        ensures
            (r is Some) == self@.contains_key(owner@),
            r matches Some(v) ==> v == self@[owner@].todo_count,
    {
        proof {
            self.lemma_view_contains();
        }
        match self.find_profile(owner) {
            Some(pi) => {
                proof {
                    lemma_profile_index(self.profiles@, pi as int);
                }
                Some(self.profiles[pi].profile.todo_count)
            },
            None => None,
        }
    }

    /// The completion flag of the owner's item at this index, when the item
    /// is live.
    pub fn item_marked(&self, owner: &OwnerKey, index: u8) -> (r: Option<bool>)
        requires
            self.wf(),
        ensures
            (r is Some) == (self@.contains_key(owner@) && self@[owner@].items.contains_key(index)),
            r matches Some(v) ==> v == self@[owner@].items[index].marked,
    {
        proof {
            self.lemma_view_contains();
        }
        let pi = match self.find_profile(owner) {
            Some(i) => i,
            None => {
                return None;
            },
        };
        proof {
            lemma_profile_index(self.profiles@, pi as int);
            self.lemma_view_items(pi as int);
        }
        let ii = match find_item(&self.profiles[pi].items, index) {
            Some(i) => i,
            None => {
                return None;
            },
        };
        proof {
            lemma_item_index(self.profiles@[pi as int].items@, ii as int);
        }
        Some(self.profiles[pi].items[ii].item.marked)
    }

    /// The text of the owner's item at this index, when the item is live.
    pub fn item_content(&self, owner: &OwnerKey, index: u8) -> (r: Option<&String>)
        requires
            self.wf(),
        ensures
            (r is Some) == (self@.contains_key(owner@) && self@[owner@].items.contains_key(index)),
            r matches Some(c) ==> c@ == self@[owner@].items[index].content,
    {
        proof {
            self.lemma_view_contains();
        }
        let pi = match self.find_profile(owner) {
            Some(i) => i,
            None => {
                return None;
            },
        };
        proof {
            lemma_profile_index(self.profiles@, pi as int);
            self.lemma_view_items(pi as int);
        }
        let ii = match find_item(&self.profiles[pi].items, index) {
            Some(i) => i,
            None => {
                return None;
            },
        };
        proof {
            lemma_item_index(self.profiles@[pi as int].items@, ii as int);
        }
        Some(&self.profiles[pi].items[ii].item.content)
    }

    /// The derived address the owner's profile record is stored at, when the
    /// profile is live.
    pub fn profile_address(&self, owner: &OwnerKey) -> (r: Option<&Vec<u8>>)
        requires
            self.wf(),
        ensures
            (r is Some) == self@.contains_key(owner@),
            r matches Some(a) ==> profile_pda(owner@) == Some(a@),
    {
        proof {
            self.lemma_view_contains();
        }
        match self.find_profile(owner) {
            Some(pi) => Some(&self.profiles[pi].address),
            None => None,
        }
    }

    /// The derived address the owner's item record at this index is stored
    /// at, when the item is live.
    pub fn item_address(&self, owner: &OwnerKey, index: u8) -> (r: Option<&Vec<u8>>)
        requires
            self.wf(),
        ensures
            (r is Some) == (self@.contains_key(owner@) && self@[owner@].items.contains_key(index)),
            r matches Some(a) ==> item_pda(owner@, index) == Some(a@),
    {
        proof {
            self.lemma_view_contains();
        }
        let pi = match self.find_profile(owner) {
            Some(i) => i,
            None => {
                return None;
            },
        };
        proof {
            lemma_profile_index(self.profiles@, pi as int);
            self.lemma_view_items(pi as int);
        }
        let ii = match find_item(&self.profiles[pi].items, index) {
            Some(i) => i,
            None => {
                return None;
            },
        };
        proof {
            lemma_item_index(self.profiles@[pi as int].items@, ii as int);
        }
        Some(&self.profiles[pi].items[ii].address)
    }
}

impl View for Registry {
    type V = Map<Seq<u8>, ProfileModel>;

    closed spec fn view(&self) -> Map<Seq<u8>, ProfileModel> {
        profiles_view(self.profiles@)
    }
}

/// Every live profile keeps `item_count <= last_index`, after every
/// operation: indices advance on each creation and are never reused, so the
/// number of live items can never pass the next unused index.
pub proof fn lemma_item_count_bounded(r: Registry, owner: Seq<u8>)
    requires
        r.wf(),
        r@.contains_key(owner),
    ensures
        r@[owner].todo_count <= r@[owner].last_todo,
{
    let s = r.profiles@;
    let i = profile_index_of(s, owner);
    assert(0 <= i < s.len() && s[i].profile.authority@ == owner);
    lemma_profile_index(s, i);
}

/// Every live item's index lies strictly below its profile's next unused
/// index: once an index has been assigned, it is never assigned again, even
/// after the item at it is destroyed.
pub proof fn lemma_live_item_index_bounded(r: Registry, owner: Seq<u8>, index: u8)
    requires
        r.wf(),
        r@.contains_key(owner),
        r@[owner].items.contains_key(index),
    ensures
        index < r@[owner].last_todo,
{
    let s = r.profiles@;
    let i = profile_index_of(s, owner);
    assert(0 <= i < s.len() && s[i].profile.authority@ == owner);
    lemma_profile_index(s, i);
    let items = s[i].items@;
    let a = item_index_of(items, index);
    assert(0 <= a < items.len() && items[a].item.idx == index);
}

} // verus!
