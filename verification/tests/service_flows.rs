use portfolio_core::decimal::Decimal;
use portfolio_core::error::AppError;
use portfolio_core::ids::generate_id;
use portfolio_core::repository::{AssetCategoryRepository, AssetGroupingRepository};
use portfolio_core::service::{AssetCategoryService, AssetGroupingService};
use portfolio_core::validation::validate_non_blank;

fn dec(negative: bool, mantissa: u128, scale: u32) -> Decimal {
    Decimal::try_new(negative, mantissa, scale).expect("decimal parts in range")
}

#[test]
fn category_lifecycle_scenario() {
    // Create under acc1, fail to update as acc2, then update as acc1 with a
    // refreshed update timestamp.
    let mut repo = AssetCategoryRepository::new();
    let created = AssetCategoryService::create(
        &mut repo,
        "acc1",
        "Equities".to_string(),
        dec(false, 60, 2),
    )
    .expect("create succeeds");
    assert!(!created.id.is_empty());
    assert_eq!(created.name, "Equities");
    assert!(created.target_ratio.eq_value(&dec(false, 60, 2)));
    assert_eq!(created.created_at, created.updated_at);

    let foreign = AssetCategoryService::update(
        &mut repo,
        &created.id,
        "acc2",
        "Equities US".to_string(),
        dec(false, 55, 2),
    );
    assert!(matches!(foreign, Err(AppError::NotFound(_))));

    let updated = AssetCategoryService::update(
        &mut repo,
        &created.id,
        "acc1",
        "Equities US".to_string(),
        dec(false, 55, 2),
    )
    .expect("owner may update");
    assert_eq!(updated.name, "Equities US");
    assert!(updated.target_ratio.eq_value(&dec(false, 55, 2)));
    assert!(updated.updated_at > updated.created_at);
}

#[test]
fn service_create_then_get_matches_input() {
    let mut repo = AssetCategoryRepository::new();
    let created = AssetCategoryService::create(
        &mut repo,
        "acc1",
        "Bonds".to_string(),
        dec(false, 25, 2),
    )
    .expect("create succeeds");

    let read = AssetCategoryService::get_by_id(&repo, &created.id)
        .expect("read succeeds")
        .expect("row exists");
    assert_eq!(read.id, created.id);
    assert_eq!(read.account_id, "acc1");
    assert_eq!(read.name, "Bonds");
    assert_eq!(read.target_ratio, dec(false, 25, 2));
}

#[test]
fn service_get_by_account_never_leaks() {
    let mut repo = AssetGroupingRepository::new();
    AssetGroupingService::create(
        &mut repo,
        "acc1",
        "asset-1".to_string(),
        "cat-1".to_string(),
    )
    .unwrap();
    AssetGroupingService::create(
        &mut repo,
        "acc2",
        "asset-2".to_string(),
        "cat-2".to_string(),
    )
    .unwrap();
    AssetGroupingService::create(
        &mut repo,
        "acc1",
        "asset-3".to_string(),
        "cat-1".to_string(),
    )
    .unwrap();

    let listed = AssetGroupingService::get_by_account(&repo, "acc1").unwrap();
    assert_eq!(listed.len(), 2);
    for g in &listed {
        assert_eq!(g.account_id, "acc1");
    }
    assert_eq!(listed[0].asset_master_id, "asset-3");
    assert_eq!(listed[1].asset_master_id, "asset-1");
}

#[test]
fn service_delete_requires_ownership() {
    let mut repo = AssetGroupingRepository::new();
    let g = AssetGroupingService::create(
        &mut repo,
        "acc1",
        "asset-1".to_string(),
        "cat-1".to_string(),
    )
    .unwrap();
    assert!(matches!(
        AssetGroupingService::delete(&mut repo, &g.id, "acc2"),
        Err(AppError::NotFound(_))
    ));
    AssetGroupingService::delete(&mut repo, &g.id, "acc1").expect("owner may delete");
    assert!(AssetGroupingService::get_by_id(&repo, &g.id).unwrap().is_none());
}

#[test]
fn generated_ids_are_stable_length_and_distinct() {
    let a = generate_id();
    let b = generate_id();
    assert_eq!(a.len(), 36);
    assert_eq!(b.len(), 36);
    assert_ne!(a, b);
}

#[test]
fn non_blank_validation() {
    assert!(!validate_non_blank(""));
    assert!(!validate_non_blank("   "));
    assert!(!validate_non_blank(" \t\r\n"));
    assert!(!validate_non_blank("\u{3000}\u{00A0}"));
    assert!(validate_non_blank("a"));
    assert!(validate_non_blank("  x  "));
}
