//! Thin orchestration over the stores: a create draws a fresh identifier and
//! delegates; everything else delegates verbatim. No business validation
//! happens here — the stores already enforce everything this layer promises.

use vstd::prelude::*;

use crate::codec::{decoded, storage_of};
use crate::decimal::Decimal;
use crate::error::AppResult;
use crate::ids::{generate_id, ID_LEN};
use crate::model::{Asset, AssetCategory, UserAssetGrouping};
use crate::repository::{
    ast_all_decodable, ast_entity_of, ast_rec, ast_rec_updated, cat_all_decodable, cat_entity_of,
    cat_rec, cat_rec_updated, grp_entity_of, grp_rec, grp_rec_updated, AssetCategoryRepository,
    AssetGroupingRepository, AssetRepository,
};
use crate::table::{has_id, is_match, rows_for_account, scoped_match};

verus! {

/// Operations on asset categories.
pub struct AssetCategoryService;

impl AssetCategoryService {
    /// Creates a category under a freshly generated identifier. The drawn
    /// identifier is random: a persistence failure arises only when it
    /// collides with an id already in the store, and then nothing changes;
    /// on an empty store the create cannot fail that way.
    pub fn create(
        repo: &mut AssetCategoryRepository,
        account_id: &str,
        name: String,
        target_ratio: Decimal,
    ) -> (r: AppResult<AssetCategory>)
        requires
            old(repo).wf(),
            target_ratio.wf(),
            old(repo).spec_clock() < u64::MAX,
        ensures
            final(repo).wf(),
            match r {
                Ok(e) => ({
                    let rec = cat_rec(
                        e@.id,
                        account_id@,
                        name@,
                        target_ratio,
                        old(repo).spec_clock(),
                    );
                    &&& e@.id.len() == ID_LEN
                    &&& !has_id(old(repo)@, e@.id)
                    &&& final(repo)@ == old(repo)@.push(rec)
                    &&& final(repo).spec_clock() == old(repo).spec_clock() + 1
                    &&& cat_entity_of(rec) == Some(e@)
                }),
                Err(err) => ({
                    &&& !(err is NotFound)
                    &&& (err is Persistence ==> final(repo)@ == old(repo)@
                        && final(repo).spec_clock() == old(repo).spec_clock()
                        && (exists|id: Seq<char>|
                        #![trigger has_id(old(repo)@, id)]
                        id.len() == ID_LEN && has_id(old(repo)@, id)))
                    &&& (err is Codec ==> decoded(storage_of(target_ratio)) is None && exists|
                        id: Seq<char>,
                    |
                        #![trigger has_id(old(repo)@, id)]
                        {
                            &&& id.len() == ID_LEN
                            &&& !has_id(old(repo)@, id)
                            &&& final(repo)@ == old(repo)@.push(
                                cat_rec(
                                    id,
                                    account_id@,
                                    name@,
                                    target_ratio,
                                    old(repo).spec_clock(),
                                ),
                            )
                        })
                }),
            },
    {
        let id = generate_id();
        repo.create(id.as_str(), account_id, name, target_ratio)
    }

    /// Lists the account's categories, newest first.
    pub fn get_by_account(repo: &AssetCategoryRepository, account_id: &str) -> (r: AppResult<
        Vec<AssetCategory>,
    >)
        ensures
            ({
                let flt = rows_for_account(repo@, account_id@);
                &&& cat_all_decodable(flt) ==> (r matches Ok(v) && v@.len() == flt.len() && (
                forall|k: int|
                    0 <= k < flt.len() ==> cat_entity_of(#[trigger] flt.reverse()[k]) == Some(
                        v@[k]@,
                    )) && (forall|k: int|
                    0 <= k < v@.len() ==> (#[trigger] v@[k])@.account_id == account_id@))
                &&& !cat_all_decodable(flt) ==> (r matches Err(e) && e is Codec)
            }),
    {
        repo.find_by_account(account_id)
    }

    /// Reads one category by id alone, whoever asks.
    pub fn get_by_id(repo: &AssetCategoryRepository, id: &str) -> (r: AppResult<
        Option<AssetCategory>,
    >)
        ensures
            !has_id(repo@, id@) ==> (r matches Ok(o) && o is None),
            has_id(repo@, id@) ==> exists|i: int|
                0 <= i < repo@.len() && (#[trigger] repo@[i]).id == id@ && (match cat_entity_of(
                    repo@[i],
                ) {
                    Some(v) => r matches Ok(o) && o matches Some(e) && e@ == v,
                    None => r matches Err(e) && e is Codec,
                }),
    {
        repo.find_by_id(id)
    }

    /// Updates the category in one scoped mutation.
    pub fn update(
        repo: &mut AssetCategoryRepository,
        id: &str,
        account_id: &str,
        name: String,
        target_ratio: Decimal,
    ) -> (r: AppResult<AssetCategory>)
        requires
            old(repo).wf(),
            target_ratio.wf(),
            old(repo).spec_clock() < u64::MAX,
        ensures
            final(repo).wf(),
            !scoped_match(old(repo)@, id@, account_id@) ==> final(repo)@ == old(repo)@ && final(repo).spec_clock() == old(repo).spec_clock() && (r matches Err(e) && e is NotFound),
            scoped_match(old(repo)@, id@, account_id@) ==> exists|i: int|
                {
                    &&& #[trigger] is_match(old(repo)@, i, id@, account_id@)
                    &&& ({
                        let rec = cat_rec_updated(
                            old(repo)@[i],
                            name@,
                            target_ratio,
                            old(repo).spec_clock(),
                        );
                        &&& final(repo)@ == old(repo)@.update(i, rec)
                        &&& final(repo).spec_clock() == old(repo).spec_clock() + 1
                        &&& rec.created_at < rec.updated_at
                        &&& match cat_entity_of(rec) {
                            Some(v) => r matches Ok(e) && e@ == v,
                            None => r matches Err(e) && e is Codec,
                        }
                    })
                },
    {
        repo.update(id, account_id, name, target_ratio)
    }

    /// Deletes the category in one scoped mutation; groupings that reference
    /// it are not touched.
    pub fn delete(repo: &mut AssetCategoryRepository, id: &str, account_id: &str) -> (r: AppResult<
        (),
    >)
        requires
            old(repo).wf(),
        ensures
            final(repo).wf(),
            final(repo).spec_clock() == old(repo).spec_clock(),
            !scoped_match(old(repo)@, id@, account_id@) ==> final(repo)@ == old(repo)@
                && (r matches Err(e) && e is NotFound),
            scoped_match(old(repo)@, id@, account_id@) ==> exists|i: int|
                #[trigger] is_match(old(repo)@, i, id@, account_id@) && final(repo)@ == old(
                    repo,
                )@.remove(i) && r is Ok,
    {
        repo.delete(id, account_id)
    }
}

/// Operations on category groupings.
pub struct AssetGroupingService;

impl AssetGroupingService {
    /// Creates a grouping under a freshly generated identifier. The drawn
    /// identifier is random: a persistence failure arises only when it
    /// collides with an id already in the store, and then nothing changes;
    /// on an empty store the create cannot fail that way.
    pub fn create(
        repo: &mut AssetGroupingRepository,
        account_id: &str,
        asset_master_id: String,
        category_id: String,
    ) -> (r: AppResult<UserAssetGrouping>)
        requires
            old(repo).wf(),
            old(repo).spec_clock() < u64::MAX,
        ensures
            final(repo).wf(),
            match r {
                Ok(e) => ({
                    let rec = grp_rec(
                        e@.id,
                        account_id@,
                        asset_master_id@,
                        category_id@,
                        old(repo).spec_clock(),
                    );
                    &&& e@.id.len() == ID_LEN
                    &&& !has_id(old(repo)@, e@.id)
                    &&& final(repo)@ == old(repo)@.push(rec)
                    &&& final(repo).spec_clock() == old(repo).spec_clock() + 1
                    &&& grp_entity_of(rec) == e@
                }),
                Err(err) => err is Persistence && final(repo)@ == old(repo)@
                    && final(repo).spec_clock() == old(repo).spec_clock() && (exists|
                    id: Seq<char>,
                |
                    #![trigger has_id(old(repo)@, id)]
                    id.len() == ID_LEN && has_id(old(repo)@, id)),
            },
    {
        let id = generate_id();
        repo.create(id.as_str(), account_id, asset_master_id, category_id)
    }

    /// Lists the account's groupings, newest first.
    pub fn get_by_account(repo: &AssetGroupingRepository, account_id: &str) -> (r: AppResult<
        Vec<UserAssetGrouping>,
    >)
        ensures
            ({
                let flt = rows_for_account(repo@, account_id@);
                r matches Ok(v) && v@.len() == flt.len() && (forall|k: int|
                    0 <= k < flt.len() ==> grp_entity_of(#[trigger] flt.reverse()[k]) == v@[k]@)
                    && (forall|k: int|
                    0 <= k < v@.len() ==> (#[trigger] v@[k])@.account_id == account_id@)
            }),
    {
        repo.find_by_account(account_id)
    }

    /// Reads one grouping by id alone, whoever asks.
    pub fn get_by_id(repo: &AssetGroupingRepository, id: &str) -> (r: AppResult<
        Option<UserAssetGrouping>,
    >)
        ensures
            !has_id(repo@, id@) ==> (r matches Ok(o) && o is None),
            has_id(repo@, id@) ==> exists|i: int|
                0 <= i < repo@.len() && (#[trigger] repo@[i]).id == id@ && (r matches Ok(o)
                    && o matches Some(e) && e@ == grp_entity_of(repo@[i])),
    {
        repo.find_by_id(id)
    }

    /// Re-binds the grouping to another category in one scoped mutation.
    pub fn update(
        repo: &mut AssetGroupingRepository,
        id: &str,
        account_id: &str,
        category_id: String,
    ) -> (r: AppResult<UserAssetGrouping>)
        requires
            old(repo).wf(),
            old(repo).spec_clock() < u64::MAX,
        ensures
            final(repo).wf(),
            !scoped_match(old(repo)@, id@, account_id@) ==> final(repo)@ == old(repo)@ && final(repo).spec_clock() == old(repo).spec_clock() && (r matches Err(e) && e is NotFound),
            scoped_match(old(repo)@, id@, account_id@) ==> exists|i: int|
                {
                    &&& #[trigger] is_match(old(repo)@, i, id@, account_id@)
                    &&& ({
                        let rec = grp_rec_updated(
                            old(repo)@[i],
                            category_id@,
                            old(repo).spec_clock(),
                        );
                        &&& final(repo)@ == old(repo)@.update(i, rec)
                        &&& final(repo).spec_clock() == old(repo).spec_clock() + 1
                        &&& rec.created_at < rec.updated_at
                        &&& (r matches Ok(e) && e@ == grp_entity_of(rec))
                    })
                },
    {
        repo.update(id, account_id, category_id)
    }

    /// Deletes the grouping in one scoped mutation.
    pub fn delete(repo: &mut AssetGroupingRepository, id: &str, account_id: &str) -> (r: AppResult<
        (),
    >)
        requires
            old(repo).wf(),
        ensures
            final(repo).wf(),
            final(repo).spec_clock() == old(repo).spec_clock(),
            !scoped_match(old(repo)@, id@, account_id@) ==> final(repo)@ == old(repo)@
                && (r matches Err(e) && e is NotFound),
            scoped_match(old(repo)@, id@, account_id@) ==> exists|i: int|
                #[trigger] is_match(old(repo)@, i, id@, account_id@) && final(repo)@ == old(
                    repo,
                )@.remove(i) && r is Ok,
    {
        repo.delete(id, account_id)
    }
}

/// Operations on holdings.
pub struct AssetService;

impl AssetService {
    /// Creates a holding under a freshly generated identifier. The drawn
    /// identifier is random: a persistence failure arises only when it
    /// collides with an id already in the store, and then nothing changes;
    /// on an empty store the create cannot fail that way.
    pub fn create(
        repo: &mut AssetRepository,
        account_id: &str,
        asset_master_id: String,
        current_amount: Decimal,
    ) -> (r: AppResult<Asset>)
        requires
            old(repo).wf(),
            current_amount.wf(),
            old(repo).spec_clock() < u64::MAX,
        ensures
            final(repo).wf(),
            match r {
                Ok(e) => ({
                    let rec = ast_rec(
                        e@.id,
                        account_id@,
                        asset_master_id@,
                        current_amount,
                        old(repo).spec_clock(),
                    );
                    &&& e@.id.len() == ID_LEN
                    &&& !has_id(old(repo)@, e@.id)
                    &&& final(repo)@ == old(repo)@.push(rec)
                    &&& final(repo).spec_clock() == old(repo).spec_clock() + 1
                    &&& ast_entity_of(rec) == Some(e@)
                }),
                Err(err) => ({
                    &&& !(err is NotFound)
                    &&& (err is Persistence ==> final(repo)@ == old(repo)@
                        && final(repo).spec_clock() == old(repo).spec_clock()
                        && (exists|id: Seq<char>|
                        #![trigger has_id(old(repo)@, id)]
                        id.len() == ID_LEN && has_id(old(repo)@, id)))
                    &&& (err is Codec ==> decoded(storage_of(current_amount)) is None && exists|
                        id: Seq<char>,
                    |
                        #![trigger has_id(old(repo)@, id)]
                        {
                            &&& id.len() == ID_LEN
                            &&& !has_id(old(repo)@, id)
                            &&& final(repo)@ == old(repo)@.push(
                                ast_rec(
                                    id,
                                    account_id@,
                                    asset_master_id@,
                                    current_amount,
                                    old(repo).spec_clock(),
                                ),
                            )
                        })
                }),
            },
    {
        let id = generate_id();
        repo.create(id.as_str(), account_id, asset_master_id, current_amount)
    }

    /// Lists the account's holdings, newest first.
    pub fn get_by_account(repo: &AssetRepository, account_id: &str) -> (r: AppResult<Vec<Asset>>)
        ensures
            ({
                let flt = rows_for_account(repo@, account_id@);
                &&& ast_all_decodable(flt) ==> (r matches Ok(v) && v@.len() == flt.len() && (
                forall|k: int|
                    0 <= k < flt.len() ==> ast_entity_of(#[trigger] flt.reverse()[k]) == Some(
                        v@[k]@,
                    )) && (forall|k: int|
                    0 <= k < v@.len() ==> (#[trigger] v@[k])@.account_id == account_id@))
                &&& !ast_all_decodable(flt) ==> (r matches Err(e) && e is Codec)
            }),
    {
        repo.find_by_account(account_id)
    }

    /// Reads one holding by id alone, whoever asks.
    pub fn get_by_id(repo: &AssetRepository, id: &str) -> (r: AppResult<Option<Asset>>)
        ensures
            !has_id(repo@, id@) ==> (r matches Ok(o) && o is None),
            has_id(repo@, id@) ==> exists|i: int|
                0 <= i < repo@.len() && (#[trigger] repo@[i]).id == id@ && (match ast_entity_of(
                    repo@[i],
                ) {
                    Some(v) => r matches Ok(o) && o matches Some(e) && e@ == v,
                    None => r matches Err(e) && e is Codec,
                }),
    {
        repo.find_by_id(id)
    }

    /// Overwrites the holding's current amount in one scoped mutation.
    pub fn update(
        repo: &mut AssetRepository,
        id: &str,
        account_id: &str,
        current_amount: Decimal,
    ) -> (r: AppResult<Asset>)
        requires
            old(repo).wf(),
            current_amount.wf(),
            old(repo).spec_clock() < u64::MAX,
        ensures
            final(repo).wf(),
            !scoped_match(old(repo)@, id@, account_id@) ==> final(repo)@ == old(repo)@ && final(repo).spec_clock() == old(repo).spec_clock() && (r matches Err(e) && e is NotFound),
            scoped_match(old(repo)@, id@, account_id@) ==> exists|i: int|
                {
                    &&& #[trigger] is_match(old(repo)@, i, id@, account_id@)
                    &&& ({
                        let rec = ast_rec_updated(
                            old(repo)@[i],
                            current_amount,
                            old(repo).spec_clock(),
                        );
                        &&& final(repo)@ == old(repo)@.update(i, rec)
                        &&& final(repo).spec_clock() == old(repo).spec_clock() + 1
                        &&& rec.created_at < rec.updated_at
                        &&& match ast_entity_of(rec) {
                            Some(v) => r matches Ok(e) && e@ == v,
                            None => r matches Err(e) && e is Codec,
                        }
                    })
                },
    {
        repo.update(id, account_id, current_amount)
    }

    /// Deletes the holding in one scoped mutation.
    pub fn delete(repo: &mut AssetRepository, id: &str, account_id: &str) -> (r: AppResult<()>)
        requires
            old(repo).wf(),
        ensures
            final(repo).wf(),
            final(repo).spec_clock() == old(repo).spec_clock(),
            !scoped_match(old(repo)@, id@, account_id@) ==> final(repo)@ == old(repo)@
                && (r matches Err(e) && e is NotFound),
            scoped_match(old(repo)@, id@, account_id@) ==> exists|i: int|
                #[trigger] is_match(old(repo)@, i, id@, account_id@) && final(repo)@ == old(
                    repo,
                )@.remove(i) && r is Ok,
    {
        repo.delete(id, account_id)
    }
}

} // verus!
