//! The request payloads the surrounding transport hands to the services,
//! already validated and reduced to plain values.

use vstd::prelude::*;

use crate::decimal::Decimal;

verus! {

/// Payload of a category create: a display name and the intended share.
#[derive(Clone, Debug)]
pub struct CreateCategoryRequest {
    pub name: String,
    pub target_ratio: Decimal,
}

/// Payload of a category update: the replacement name and share.
#[derive(Clone, Debug)]
pub struct UpdateCategoryRequest {
    pub name: String,
    pub target_ratio: Decimal,
}

/// Payload of a grouping create: the two references the grouping binds.
#[derive(Clone, Debug)]
pub struct CreateGroupingRequest {
    pub asset_master_id: String,
    pub category_id: String,
}

/// Payload of a grouping update: the replacement category reference.
#[derive(Clone, Debug)]
pub struct UpdateGroupingRequest {
    pub category_id: String,
}

/// Payload of a holding create: the catalog asset held and the amount.
#[derive(Clone, Debug)]
pub struct CreateUserAssetRequest {
    pub asset_master_id: String,
    pub current_amount: Decimal,
}

/// Payload of a holding update: the replacement amount.
#[derive(Clone, Debug)]
pub struct UpdateUserAssetRequest {
    pub current_amount: Decimal,
}

} // verus!
