use vstd::prelude::*;

verus! {

/// The identity of a controlling principal: the raw bytes of its public key.
/// The host authenticates the caller; this library only compares identities
/// and feeds their bytes to address derivation.
#[derive(Debug)]
pub struct OwnerKey {
    bytes: Vec<u8>,
}

impl View for OwnerKey {
    type V = Seq<u8>;

    closed spec fn view(&self) -> Seq<u8> {
        self.bytes@
    }
}

impl OwnerKey {
    /// Wraps raw key bytes as an identity.
    pub fn new(bytes: Vec<u8>) -> (r: OwnerKey)
        ensures
            r@ == bytes@,
    {
        OwnerKey { bytes }
    }

    /// The identity's raw bytes.
    pub fn as_bytes(&self) -> (r: &Vec<u8>)
        ensures
            r@ == self@,
    {
        &self.bytes
    }

    /// A copy of this identity.
    pub fn duplicate(&self) -> (r: OwnerKey)
        ensures
            r@ == self@,
    {
        let bytes = self.bytes.clone();
        proof {
            assert(bytes@ =~= self.bytes@);
        }
        OwnerKey { bytes }
    }

    /// Whether two identities are the same principal, byte for byte.
    pub fn eq_key(&self, other: &OwnerKey) -> (r: bool)
        ensures
            r == (self@ == other@),
    {
        let r = self.bytes == other.bytes;
        proof {
            if r {
                assert(self.bytes@ =~= other.bytes@);
            }
        }
        r
    }
}

/// One per owner identity: records the next unused item index and the number
/// of currently live items. `item_count <= last_todo` always holds, because
/// indices advance on every creation and are never reused.
pub struct UserProfile {
    /// The controlling principal. Immutable after creation.
    pub authority: OwnerKey,
    /// The next unused item index for this owner.
    pub last_todo: u8,
    /// The number of currently live items owned by this profile.
    pub todo_count: u8,
}

/// A single user-created record, addressed by `(owner, index)`.
pub struct TodoAccount {
    /// The controlling principal, copied from the profile at creation.
    pub authority: OwnerKey,
    /// The profile's `last_todo` at the moment of creation. Unique per owner.
    pub idx: u8,
    /// Caller-supplied text payload.
    pub content: String,
    /// Completion flag; starts false and moves to true exactly once.
    pub marked: bool,
}

} // verus!
