use vstd::prelude::*;

use crate::states::OwnerKey;
use anchor_lang::prelude::Pubkey;

verus! {

/// The address that `Pubkey::try_find_program_address` computes for the given
/// seeds and program id. It is a deterministic function of both (a bounded
/// search over SHA-256 digests), whose value has no short statement; the name
/// stands for it, and the wrapper below ties the name to the real call.
pub uninterp spec fn pda_of(seeds: Seq<Seq<u8>>, program_id: Seq<u8>) -> Option<Seq<u8>>;

/// Relies on `Pubkey::try_find_program_address` (re-exported by anchor_lang):
/// for fixed seeds and program id it always returns the same value, a 32-byte
/// program-derived address when a viable bump seed exists, and None otherwise
/// (for example when a seed exceeds the maximum seed length).
#[verifier::external_body]
fn find_pda(seeds: &Vec<Vec<u8>>, program_id: &Vec<u8>) -> (r: Option<Vec<u8>>)
    requires
        program_id@.len() == 32,
    ensures
        (r is Some) == (pda_of(seeds.deep_view(), program_id@) is Some),
        r matches Some(a) ==> pda_of(seeds.deep_view(), program_id@) == Some(a@) && a@.len() == 32,
{
    let seed_slices: Vec<&[u8]> = seeds.iter().map(|s| s.as_slice()).collect();
    let mut id = [0u8; 32];
    id.copy_from_slice(program_id.as_slice());
    let program = Pubkey::new_from_array(id);
    Pubkey::try_find_program_address(&seed_slices, &program).map(|(pk, _bump)| pk.to_bytes().to_vec())
}

/// The namespace tag of profile records.
pub open spec fn user_tag_spec() -> Seq<u8> {
    seq![85u8, 83u8, 69u8, 82u8, 95u8, 83u8, 84u8, 65u8, 84u8, 69u8]
}

/// The namespace tag of item records.
pub open spec fn todo_tag_spec() -> Seq<u8> {
    seq![84u8, 79u8, 68u8, 79u8, 95u8, 83u8, 84u8, 65u8, 84u8, 69u8]
}

/// The program's own deployed address, the base of every derivation.
pub open spec fn program_id_spec() -> Seq<u8> {
    seq![
        91u8, 17u8, 82u8, 178u8, 108u8, 172u8, 32u8, 39u8, 58u8, 131u8, 244u8, 161u8, 144u8,
        198u8, 166u8, 247u8, 217u8, 169u8, 168u8, 62u8, 22u8, 86u8, 165u8, 165u8, 192u8, 191u8,
        119u8, 40u8, 192u8, 204u8, 218u8, 54u8,
    ]
}

/// The tag that keys the profile namespace, as key material.
pub fn user_tag() -> (r: Vec<u8>)
    ensures
        r@ == user_tag_spec(),
{
    let mut v: Vec<u8> = Vec::new();
    v.push(85);
    v.push(83);
    v.push(69);
    v.push(82);
    v.push(95);
    v.push(83);
    v.push(84);
    v.push(65);
    v.push(84);
    v.push(69);
    proof {
        assert(v@ =~= user_tag_spec());
    }
    v
}

/// The tag that keys the item namespace, as key material.
pub fn todo_tag() -> (r: Vec<u8>)
    ensures
        r@ == todo_tag_spec(),
{
    let mut v: Vec<u8> = Vec::new();
    v.push(84);
    v.push(79);
    v.push(68);
    v.push(79);
    v.push(95);
    v.push(83);
    v.push(84);
    v.push(65);
    v.push(84);
    v.push(69);
    proof {
        assert(v@ =~= todo_tag_spec());
    }
    v
}

/// The program's address as plain bytes.
pub fn program_id_bytes() -> (r: Vec<u8>)
    ensures
        r@ == program_id_spec(),
{
    let mut v: Vec<u8> = Vec::new();
    v.push(91);
    v.push(17);
    v.push(82);
    v.push(178);
    v.push(108);
    v.push(172);
    v.push(32);
    v.push(39);
    v.push(58);
    v.push(131);
    v.push(244);
    v.push(161);
    v.push(144);
    v.push(198);
    v.push(166);
    v.push(247);
    v.push(217);
    v.push(169);
    v.push(168);
    v.push(62);
    v.push(22);
    v.push(86);
    v.push(165);
    v.push(165);
    v.push(192);
    v.push(191);
    v.push(119);
    v.push(40);
    v.push(192);
    v.push(204);
    v.push(218);
    v.push(54);
    proof {
        assert(v@ =~= program_id_spec());
    }
    v
}

/// The address of the owner's profile record, when one can be derived.
pub open spec fn profile_pda(owner: Seq<u8>) -> Option<Seq<u8>> {
    pda_of(seq![user_tag_spec(), owner], program_id_spec())
}

/// The address of the owner's item record at the given index, when one can be
/// derived. The index is encoded as a single byte, which bounds every owner
/// to indices 0 through 255.
pub open spec fn item_pda(owner: Seq<u8>, index: u8) -> Option<Seq<u8>> {
    pda_of(seq![todo_tag_spec(), owner, seq![index]], program_id_spec())
}

/// Derives the unique address of the owner's profile record.
pub fn derive_profile_address(owner: &OwnerKey) -> (r: Option<Vec<u8>>)
    ensures
        (r is Some) == (profile_pda(owner@) is Some),
        r matches Some(a) ==> profile_pda(owner@) == Some(a@) && a@.len() == 32,
{
    let mut seeds: Vec<Vec<u8>> = Vec::new();
    seeds.push(user_tag());
    seeds.push(owner.as_bytes().clone());
    let program_id = program_id_bytes();
    proof {
        assert(seeds.deep_view() =~~= seq![user_tag_spec(), owner@]);
    }
    find_pda(&seeds, &program_id)
}

/// Derives the unique address of the owner's item record at the given index.
pub fn derive_item_address(owner: &OwnerKey, index: u8) -> (r: Option<Vec<u8>>)
    ensures
        (r is Some) == (item_pda(owner@, index) is Some),
        r matches Some(a) ==> item_pda(owner@, index) == Some(a@) && a@.len() == 32,
{
    let mut seeds: Vec<Vec<u8>> = Vec::new();
    seeds.push(todo_tag());
    seeds.push(owner.as_bytes().clone());
    let mut index_seed: Vec<u8> = Vec::new();
    index_seed.push(index);
    seeds.push(index_seed);
    let program_id = program_id_bytes();
    proof {
        assert(seeds.deep_view() =~~= seq![todo_tag_spec(), owner@, seq![index]]);
    }
    find_pda(&seeds, &program_id)
}

} // verus!
