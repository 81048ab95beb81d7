use crate::identity::Identity;
use anchor_lang::solana_program::account_info::AccountInfo;
use anchor_lang::solana_program::program_error::ProgramError;
use anchor_lang::solana_program::pubkey::Pubkey;
use spl_governance::state::realm::get_realm_data_for_governing_token_mint;
use vstd::prelude::*;

verus! {

/// The error type of the governance program's library. Nothing is read from it.
#[verifier::external_type_specification]
#[verifier::external_body]
pub struct ExProgramError(ProgramError);

/// A realm's account as the governance program sees it: its address, the
/// program that owns it, and the bytes stored in it.
#[derive(Clone, Debug, PartialEq, Eq)]
pub struct RealmAccount {
    pub key: Identity,
    pub owner: Identity,
    pub data: Vec<u8>,
}

/// What a realm lookup gave.
#[derive(Clone, Copy, Debug, PartialEq, Eq)]
pub enum RealmAuthority {
    /// The account is not a realm of the program, or not one of the mint.
    LookupFailed,
    /// The realm has no authority.
    Unset,
    /// The realm's authority.
    Held(Identity),
}

impl RealmAuthority {
    /// The lookup's answer over plain bytes: `None` where the lookup failed,
    /// `Some(None)` for a realm without authority.
    pub open spec fn model(self) -> Option<Option<Seq<u8>>> {
        match self {
            RealmAuthority::LookupFailed => None,
            RealmAuthority::Unset => Some(None),
            RealmAuthority::Held(authority) => Some(Some(authority@)),
        }
    }
}

/// The answer of spl-governance's `get_realm_data_for_governing_token_mint`
/// for an account owned by `owner` that stores `data`, asked by `program` for
/// the governing mint `mint`: `None` where it returns an error, else the
/// `authority` field of the realm that it returns. The account's bytes are
/// decoded by that crate; nothing more is claimed of the answer here than that
/// it depends on these four values alone.
pub uninterp spec fn realm_authority(
    program: Seq<u8>,
    owner: Seq<u8>,
    data: Seq<u8>,
    mint: Seq<u8>,
) -> Option<Option<Seq<u8>>>;

/// Calls spl-governance's `get_realm_data_for_governing_token_mint` on an
/// account made of `realm`'s address, owner and a copy of its data. Trusted:
/// the call returns an error or a realm, and which of the two, and the realm's
/// authority, are what `realm_authority` names. The call reads the account's
/// owner and data only; the other fields of the account it is handed are
/// fillers.
#[verifier::external_body]
fn read_realm_authority(program: &Identity, realm: &RealmAccount, mint: &Identity) -> (found:
    Result<Option<Identity>, ProgramError>)
    ensures
        match found {
            Ok(Some(authority)) => realm_authority(program@, realm.owner@, realm.data@, mint@)
                == Some(Some(authority@)),
            Ok(None) => realm_authority(program@, realm.owner@, realm.data@, mint@) == Some(
                None::<Seq<u8>>,
            ),
            Err(_) => realm_authority(program@, realm.owner@, realm.data@, mint@) is None,
        },
{
    let key = Pubkey::new_from_array(realm.key.bytes);
    let owner = Pubkey::new_from_array(realm.owner.bytes);
    let mut lamports: u64 = 0;
    let mut data = realm.data.clone();
    let info = AccountInfo::new(&key, false, false, &mut lamports, &mut data, &owner, false, 0);
    let program = Pubkey::new_from_array(program.bytes);
    let mint = Pubkey::new_from_array(mint.bytes);
    let realm_data = get_realm_data_for_governing_token_mint(&program, &info, &mint)?;
    Ok(realm_data.authority.map(|authority| Identity::new(authority.to_bytes())))
}

/// Asks the governance program's library who the authority of `realm` is,
/// for the governing mint `mint`.
pub fn resolve_authority(program: &Identity, realm: &RealmAccount, mint: &Identity) -> (resolved:
    RealmAuthority)
    ensures
        resolved.model() == realm_authority(program@, realm.owner@, realm.data@, mint@),
{
    match read_realm_authority(program, realm, mint) {
        Ok(Some(authority)) => RealmAuthority::Held(authority),
        Ok(None) => RealmAuthority::Unset,
        Err(_) => RealmAuthority::LookupFailed,
    }
}

} // verus!
