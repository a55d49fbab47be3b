//! The three entity kinds the portfolio layer returns to its callers. Each
//! carries its own id, the owning account, and the two row timestamps; the
//! decimal fields hold the value as read back through the storage codec.

use vstd::prelude::*;

use crate::decimal::Decimal;

verus! {

/// A named asset category with its intended share of the portfolio.
#[derive(Clone, Debug)]
pub struct AssetCategory {
    pub id: String,
    pub account_id: String,
    pub name: String,
    pub target_ratio: Decimal,
    pub created_at: u64,
    pub updated_at: u64,
}

/// The mathematical image of an [`AssetCategory`].
pub struct AssetCategoryView {
    pub id: Seq<char>,
    pub account_id: Seq<char>,
    pub name: Seq<char>,
    pub target_ratio: Decimal,
    pub created_at: u64,
    pub updated_at: u64,
}

impl View for AssetCategory {
    type V = AssetCategoryView;

    open spec fn view(&self) -> AssetCategoryView {
        AssetCategoryView {
            id: self.id@,
            account_id: self.account_id@,
            name: self.name@,
            target_ratio: self.target_ratio,
            created_at: self.created_at,
            updated_at: self.updated_at,
        }
    }
}

/// The link binding a catalog asset to a category within an account. The
/// referenced ids are opaque here: neither is checked for existence.
#[derive(Clone, Debug)]
pub struct UserAssetGrouping {
    pub id: String,
    pub account_id: String,
    pub asset_master_id: String,
    pub category_id: String,
    pub created_at: u64,
    pub updated_at: u64,
}

/// The mathematical image of a [`UserAssetGrouping`].
pub struct UserAssetGroupingView {
    pub id: Seq<char>,
    pub account_id: Seq<char>,
    pub asset_master_id: Seq<char>,
    pub category_id: Seq<char>,
    pub created_at: u64,
    pub updated_at: u64,
}

impl View for UserAssetGrouping {
    type V = UserAssetGroupingView;

    open spec fn view(&self) -> UserAssetGroupingView {
        UserAssetGroupingView {
            id: self.id@,
            account_id: self.account_id@,
            asset_master_id: self.asset_master_id@,
            category_id: self.category_id@,
            created_at: self.created_at,
            updated_at: self.updated_at,
        }
    }
}

/// A holding: the current amount of a catalog asset an account owns. The
/// amount is a mutable current state, not a ledger of transactions.
#[derive(Clone, Debug)]
pub struct Asset {
    pub id: String,
    pub account_id: String,
    pub asset_master_id: String,
    pub current_amount: Decimal,
    pub created_at: u64,
    pub updated_at: u64,
}

/// The mathematical image of an [`Asset`].
pub struct AssetView {
    pub id: Seq<char>,
    pub account_id: Seq<char>,
    pub asset_master_id: Seq<char>,
    pub current_amount: Decimal,
    pub created_at: u64,
    pub updated_at: u64,
}

impl View for Asset {
    type V = AssetView;

    open spec fn view(&self) -> AssetView {
        AssetView {
            id: self.id@,
            account_id: self.account_id@,
            asset_master_id: self.asset_master_id@,
            current_amount: self.current_amount,
            created_at: self.created_at,
            updated_at: self.updated_at,
        }
    }
}

} // verus!
