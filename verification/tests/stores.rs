use portfolio_core::decimal::Decimal;
use portfolio_core::codec::CodecError;
use portfolio_core::error::AppError;
use portfolio_core::repository::{
    AssetCategoryRepository, AssetGroupingRepository, AssetRepository,
};

fn dec(negative: bool, mantissa: u128, scale: u32) -> Decimal {
    Decimal::try_new(negative, mantissa, scale).expect("decimal parts in range")
}

#[test]
fn create_then_get_returns_every_field() {
    let mut repo = AssetCategoryRepository::new();
    let created = repo
        .create("cat-1", "acc1", "Equities".to_string(), dec(false, 5, 1))
        .expect("create succeeds");
    assert_eq!(created.id, "cat-1");
    assert_eq!(created.account_id, "acc1");
    assert_eq!(created.name, "Equities");
    assert_eq!(created.target_ratio, dec(false, 5, 1));
    assert_eq!(created.created_at, created.updated_at);

    let read = repo.find_by_id("cat-1").expect("read succeeds").expect("row exists");
    assert_eq!(read.id, created.id);
    assert_eq!(read.account_id, created.account_id);
    assert_eq!(read.name, created.name);
    assert_eq!(read.target_ratio, created.target_ratio);
    assert_eq!(read.created_at, created.created_at);
    assert_eq!(read.updated_at, created.updated_at);
}

#[test]
fn get_by_id_is_unscoped() {
    // Reads by id are not account-scoped: any caller who knows the id sees
    // the row, unlike update and delete.
    let mut repo = AssetCategoryRepository::new();
    repo.create("cat-1", "acc1", "Bonds".to_string(), dec(false, 4, 1)).unwrap();
    let read = repo.find_by_id("cat-1").unwrap().expect("visible to everyone");
    assert_eq!(read.account_id, "acc1");
}

#[test]
fn foreign_account_update_fails_and_changes_nothing() {
    let mut repo = AssetCategoryRepository::new();
    repo.create("cat-1", "acc1", "Equities".to_string(), dec(false, 5, 1)).unwrap();

    let r = repo.update("cat-1", "acc2", "Hijacked".to_string(), dec(false, 9, 1));
    assert!(r.unwrap_err().is_not_found());

    let e = repo.find_by_id("cat-1").unwrap().expect("still there");
    assert_eq!(e.name, "Equities");
    assert_eq!(e.target_ratio, dec(false, 5, 1));
}

#[test]
fn foreign_account_delete_fails_and_changes_nothing() {
    let mut repo = AssetRepository::new();
    repo.create("h-1", "acc1", "asset-9".to_string(), dec(false, 100, 0)).unwrap();

    let r = repo.delete("h-1", "acc2");
    assert!(matches!(r, Err(AppError::NotFound(_))));

    let e = repo.find_by_id("h-1").unwrap().expect("still there");
    assert_eq!(e.current_amount, dec(false, 100, 0));
}

#[test]
fn list_is_account_scoped_and_newest_first() {
    let mut repo = AssetCategoryRepository::new();
    repo.create("c1", "acc1", "One".to_string(), dec(false, 1, 1)).unwrap();
    repo.create("c2", "acc2", "Two".to_string(), dec(false, 2, 1)).unwrap();
    repo.create("c3", "acc1", "Three".to_string(), dec(false, 3, 1)).unwrap();
    repo.create("c4", "acc2", "Four".to_string(), dec(false, 4, 1)).unwrap();
    repo.create("c5", "acc1", "Five".to_string(), dec(false, 5, 1)).unwrap();

    let listed = repo.find_by_account("acc1").expect("list succeeds");
    let ids: Vec<&str> = listed.iter().map(|e| e.id.as_str()).collect();
    assert_eq!(ids, ["c5", "c3", "c1"]);
    for e in &listed {
        assert_eq!(e.account_id, "acc1");
    }

    let other = repo.find_by_account("acc2").expect("list succeeds");
    let ids: Vec<&str> = other.iter().map(|e| e.id.as_str()).collect();
    assert_eq!(ids, ["c4", "c2"]);

    let empty = repo.find_by_account("acc3").expect("list succeeds");
    assert!(empty.is_empty());
}

#[test]
fn deleting_category_keeps_groupings_dangling() {
    // No referential integrity: removing a category leaves groupings that
    // reference its id in place, the reference dangling.
    let mut categories = AssetCategoryRepository::new();
    let mut groupings = AssetGroupingRepository::new();

    categories.create("cat-1", "acc1", "Equities".to_string(), dec(false, 6, 1)).unwrap();
    groupings
        .create("grp-1", "acc1", "asset-7".to_string(), "cat-1".to_string())
        .unwrap();

    categories.delete("cat-1", "acc1").expect("delete succeeds");
    assert!(categories.find_by_id("cat-1").unwrap().is_none());

    let still = groupings.find_by_id("grp-1").unwrap().expect("grouping persists");
    assert_eq!(still.category_id, "cat-1");
    let listed = groupings.find_by_account("acc1").unwrap();
    assert_eq!(listed.len(), 1);
    assert_eq!(listed[0].category_id, "cat-1");
}

#[test]
fn delete_nonexistent_id_fails_and_store_is_unchanged() {
    let mut repo = AssetCategoryRepository::new();
    repo.create("c1", "acc1", "One".to_string(), dec(false, 1, 1)).unwrap();

    let r = repo.delete("missing", "acc1");
    assert!(matches!(r, Err(AppError::NotFound(_))));

    let listed = repo.find_by_account("acc1").unwrap();
    assert_eq!(listed.len(), 1);
    assert_eq!(listed[0].id, "c1");
}

#[test]
fn duplicate_id_is_a_persistence_failure() {
    let mut repo = AssetCategoryRepository::new();
    repo.create("c1", "acc1", "One".to_string(), dec(false, 1, 1)).unwrap();
    let r = repo.create("c1", "acc2", "Other".to_string(), dec(false, 2, 1));
    assert!(r.unwrap_err().is_persistence());
    // the first row is untouched
    let e = repo.find_by_id("c1").unwrap().unwrap();
    assert_eq!(e.account_id, "acc1");
    assert_eq!(e.name, "One");
}

#[test]
fn update_refreshes_updated_at_strictly() {
    let mut repo = AssetRepository::new();
    let created = repo
        .create("h-1", "acc1", "asset-1".to_string(), dec(false, 10, 0))
        .unwrap();
    let updated = repo.update("h-1", "acc1", dec(false, 20, 0)).expect("update succeeds");
    assert_eq!(updated.created_at, created.created_at);
    assert!(updated.updated_at > updated.created_at);
    assert_eq!(updated.current_amount, dec(false, 20, 0));
    assert_eq!(updated.asset_master_id, "asset-1");
}

#[test]
fn grouping_update_rebinds_category_only() {
    let mut repo = AssetGroupingRepository::new();
    repo.create("g1", "acc1", "asset-1".to_string(), "cat-1".to_string()).unwrap();
    let updated = repo.update("g1", "acc1", "cat-2".to_string()).expect("update succeeds");
    assert_eq!(updated.asset_master_id, "asset-1");
    assert_eq!(updated.category_id, "cat-2");
    assert!(updated.updated_at > updated.created_at);
}

#[test]
fn holding_update_overwrites_without_history() {
    let mut repo = AssetRepository::new();
    repo.create("h-1", "acc1", "asset-1".to_string(), dec(false, 100, 0)).unwrap();
    repo.update("h-1", "acc1", dec(false, 250, 1)).unwrap();
    let e = repo.find_by_id("h-1").unwrap().unwrap();
    assert_eq!(e.current_amount, dec(false, 25, 0));
    let listed = repo.find_by_account("acc1").unwrap();
    assert_eq!(listed.len(), 1);
}

#[test]
fn error_kind_accessors() {
    let nf = AppError::NotFound("gone".to_string());
    let pf = AppError::Persistence("broken".to_string());
    let cf = AppError::Codec(CodecError::Unrepresentable);
    assert!(nf.is_not_found() && !nf.is_persistence() && !nf.is_codec());
    assert!(pf.is_persistence() && !pf.is_not_found() && !pf.is_codec());
    assert!(cf.is_codec() && !cf.is_not_found() && !cf.is_persistence());
}
