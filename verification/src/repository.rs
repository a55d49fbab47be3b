//! The three stores. Each keeps its rows in insertion order under a logical
//! write clock that stamps `created_at` and `updated_at`, enforces unique
//! ids, and mutates a row only when both the id and the supplied account
//! match — the scoped-mutation discipline every tenant relies on. Decimal
//! columns are kept in their stored form and pass through the codec on the
//! way in and out, exactly once each way.

use vstd::prelude::*;

use crate::codec::{decoded, from_storage, storage_of, to_storage, CodecError, StorageNumber};
use crate::decimal::Decimal;
use crate::error::{AppError, AppResult};
use crate::model::{
    Asset, AssetCategory, AssetCategoryView, AssetView, UserAssetGrouping, UserAssetGroupingView,
};
use crate::table::{
    has_id, is_match, lemma_account_rows_are_scoped, lemma_account_rows_keep_order,
    rows_for_account, scoped_match, wf_rows, Rec,
};

verus! {

/// The payload columns of a category row: the display name and the stored
/// form of the target ratio.
pub struct CategoryCols {
    pub name: Seq<char>,
    pub ratio_bits: u64,
}

/// The row a category create persists: both timestamps at the write instant,
/// the ratio in its stored form.
pub open spec fn cat_rec(
    id: Seq<char>,
    account_id: Seq<char>,
    name: Seq<char>,
    ratio: Decimal,
    at: u64,
) -> Rec<CategoryCols> {
    Rec {
        id,
        account_id,
        created_at: at,
        updated_at: at,
        fields: CategoryCols { name, ratio_bits: storage_of(ratio) },
    }
}

/// The row a category update leaves behind: payload replaced, `updated_at`
/// refreshed, id, owner and `created_at` untouched.
pub open spec fn cat_rec_updated(
    rec: Rec<CategoryCols>,
    name: Seq<char>,
    ratio: Decimal,
    at: u64,
) -> Rec<CategoryCols> {
    Rec { updated_at: at, fields: CategoryCols { name, ratio_bits: storage_of(ratio) }, ..rec }
}

/// The entity a category row reads back as, `None` when its stored ratio
/// does not decode.
pub open spec fn cat_entity_of(rec: Rec<CategoryCols>) -> Option<AssetCategoryView> {
    match decoded(rec.fields.ratio_bits) {
        Some(d) => Some(
            AssetCategoryView {
                id: rec.id,
                account_id: rec.account_id,
                name: rec.fields.name,
                target_ratio: d,
                created_at: rec.created_at,
                updated_at: rec.updated_at,
            },
        ),
        None => None,
    }
}

/// Every row in the sequence has a readable stored ratio.
pub open spec fn cat_all_decodable(recs: Seq<Rec<CategoryCols>>) -> bool {
    forall|i: int| 0 <= i < recs.len() ==> decoded((#[trigger] recs[i]).fields.ratio_bits) is Some
}

struct CategoryRow {
    id: String,
    account_id: String,
    name: String,
    target_ratio: StorageNumber,
    created_at: u64,
    updated_at: u64,
}

impl View for CategoryRow {
    type V = Rec<CategoryCols>;

    closed spec fn view(&self) -> Rec<CategoryCols> {
        Rec {
            id: self.id@,
            account_id: self.account_id@,
            created_at: self.created_at,
            updated_at: self.updated_at,
            fields: CategoryCols { name: self.name@, ratio_bits: self.target_ratio.bits },
        }
    }
}

/// The asset-category store.
pub struct AssetCategoryRepository {
    rows: Vec<CategoryRow>,
    clock: u64,
}

impl View for AssetCategoryRepository {
    type V = Seq<Rec<CategoryCols>>;

    closed spec fn view(&self) -> Seq<Rec<CategoryCols>> {
        self.rows@.map_values(|r: CategoryRow| r@)
    }
}

impl AssetCategoryRepository {
    /// The logical write clock: every stamp handed out so far lies below it.
    pub closed spec fn spec_clock(&self) -> u64 {
        self.clock
    }

    /// The store invariant.
    pub open spec fn wf(&self) -> bool {
        wf_rows(self@, self.spec_clock())
    }

    /// An empty store.
    pub fn new() -> (r: Self)
        ensures
            r.wf(),
            r@ == Seq::<Rec<CategoryCols>>::empty(),
            r.spec_clock() == 0,
    {
        let r = AssetCategoryRepository { rows: Vec::new(), clock: 0 };
        proof {
            assert(r@ =~= Seq::<Rec<CategoryCols>>::empty());
        }
        r
    }

    /// The current clock value, so a caller can see a write stamp is available.
    pub fn clock(&self) -> (r: u64)
        ensures
            r == self.spec_clock(),
    {
        self.clock
    }

    fn find_index_by_id(&self, id: &String) -> (r: Option<usize>)
        ensures
            match r {
                Some(i) => i < self@.len() && self@[i as int].id == id@,
                None => !has_id(self@, id@),
            },
    {
        let mut i: usize = 0;
        while i < self.rows.len()
            invariant
                i <= self.rows.len(),
                forall|k: int| 0 <= k < i ==> (#[trigger] self@[k]).id != id@,
            decreases self.rows.len() - i,
        {
            if self.rows[i].id == *id {
                return Some(i);
            }
            i = i + 1;
        }
        None
    }

    fn find_index_scoped(&self, id: &String, account_id: &String) -> (r: Option<usize>)
        ensures
            match r {
                Some(i) => is_match(self@, i as int, id@, account_id@),
                None => !scoped_match(self@, id@, account_id@),
            },
    {
        let mut i: usize = 0;
        while i < self.rows.len()
            invariant
                i <= self.rows.len(),
                forall|k: int| 0 <= k < i ==> !is_match(self@, k, id@, account_id@),
            decreases self.rows.len() - i,
        {
            if self.rows[i].id == *id && self.rows[i].account_id == *account_id {
                return Some(i);
            }
            i = i + 1;
        }
        None
    }

    /// Persists a new category under the caller's account and returns it as
    /// persisted: the ratio read back through the codec, both timestamps at
    /// the write instant. An id already present is a persistence failure, as
    /// the engine's uniqueness constraint would make it.
    pub fn create(
        &mut self,
        id: &str,
        account_id: &str,
        name: String,
        target_ratio: Decimal,
    ) -> (r: AppResult<AssetCategory>)
        requires
            old(self).wf(),
            target_ratio.wf(),
            old(self).spec_clock() < u64::MAX,
        ensures
            final(self).wf(),
            has_id(old(self)@, id@) ==> final(self)@ == old(self)@ && final(self).spec_clock()
                == old(self).spec_clock() && (r matches Err(e) && e is Persistence),
            !has_id(old(self)@, id@) ==> ({
                let rec = cat_rec(id@, account_id@, name@, target_ratio, old(self).spec_clock());
                &&& final(self)@ == old(self)@.push(rec)
                &&& final(self).spec_clock() == old(self).spec_clock() + 1
                &&& match cat_entity_of(rec) {
                    Some(v) => r matches Ok(e) && e@ == v,
                    None => r matches Err(e) && e is Codec,
                }
            }),
    {
        let id_s: String = id.to_owned();
        let account_s: String = account_id.to_owned();
        if self.find_index_by_id(&id_s).is_some() {
            return Err(
                AppError::Persistence("an entity with this id already exists".to_string()),
            );
        }
        let ts = self.clock;
        self.clock = self.clock + 1;
        let stored = to_storage(&target_ratio);
        let row = CategoryRow {
            id: id_s,
            account_id: account_s,
            name,
            target_ratio: stored,
            created_at: ts,
            updated_at: ts,
        };
        let entity = match from_storage(&stored) {
            Ok(d) => Some(
                AssetCategory {
                    id: row.id.clone(),
                    account_id: row.account_id.clone(),
                    name: row.name.clone(),
                    target_ratio: d,
                    created_at: ts,
                    updated_at: ts,
                },
            ),
            Err(_) => None,
        };
        let ghost rec = row@;
        self.rows.push(row);
        proof {
            assert(self@ =~= old(self)@.push(rec));
            assert forall|i: int, j: int|
                0 <= i < self@.len() && 0 <= j < self@.len() && i != j implies (
            #[trigger] self@[i]).id != (#[trigger] self@[j]).id by {
                if i < old(self)@.len() && j < old(self)@.len() {
                    assert(old(self)@[i].id != old(self)@[j].id);
                }
            }
        }
        match entity {
            Some(e) => Ok(e),
            None => Err(AppError::Codec(CodecError::Unrepresentable)),
        }
    }

    /// Reads one category by id alone, whoever asks: `None` when no row
    /// carries the id, the persisted entity otherwise.
    pub fn find_by_id(&self, id: &str) -> (r: AppResult<Option<AssetCategory>>)
        ensures
            !has_id(self@, id@) ==> (r matches Ok(o) && o is None),
            has_id(self@, id@) ==> exists|i: int|
                0 <= i < self@.len() && (#[trigger] self@[i]).id == id@ && (match cat_entity_of(
                    self@[i],
                ) {
                    Some(v) => r matches Ok(o) && o matches Some(e) && e@ == v,
                    None => r matches Err(e) && e is Codec,
                }),
    {
        let id_s: String = id.to_owned();
        match self.find_index_by_id(&id_s) {
            None => Ok(None),
            Some(i) => {
                let rowi = &self.rows[i];
                match from_storage(&rowi.target_ratio) {
                    Ok(d) => Ok(
                        Some(
                            AssetCategory {
                                id: rowi.id.clone(),
                                account_id: rowi.account_id.clone(),
                                name: rowi.name.clone(),
                                target_ratio: d,
                                created_at: rowi.created_at,
                                updated_at: rowi.updated_at,
                            },
                        ),
                    ),
                    Err(_) => Err(AppError::Codec(CodecError::Unrepresentable)),
                }
            },
        }
    }

    /// Lists the account's categories, newest first; a row that is not
    /// owned by the account never appears. Fails only when a stored ratio
    /// cannot be read back.
    pub fn find_by_account(&self, account_id: &str) -> (r: AppResult<Vec<AssetCategory>>)
        ensures
            ({
                let flt = rows_for_account(self@, account_id@);
                &&& cat_all_decodable(flt) ==> (r matches Ok(v) && v@.len() == flt.len() && (
                forall|k: int|
                    0 <= k < flt.len() ==> cat_entity_of(#[trigger] flt.reverse()[k]) == Some(
                        v@[k]@,
                    )) && (forall|k: int|
                    0 <= k < v@.len() ==> (#[trigger] v@[k])@.account_id == account_id@))
                &&& self.wf() && cat_all_decodable(flt) ==> (r matches Ok(v) && (forall|k1: int, k2: int|
                    0 <= k1 < k2 < v@.len() ==> (#[trigger] v@[k1])@.created_at > (
                    #[trigger] v@[k2])@.created_at))
                &&& !cat_all_decodable(flt) ==> (r matches Err(e) && e is Codec)
            }),
    {
        let account_s: String = account_id.to_owned();
        let mut out: Vec<AssetCategory> = Vec::new();
        let mut i: usize = 0;
        proof {
            assert(self@.take(0) =~= Seq::<Rec<CategoryCols>>::empty());
            reveal(Seq::filter);
        }
        while i < self.rows.len()
            invariant
                i <= self.rows.len(),
                account_s@ == account_id@,
                cat_all_decodable(rows_for_account(self@.take(i as int), account_id@)),
                out@.len() == rows_for_account(self@.take(i as int), account_id@).len(),
                forall|k: int|
                    0 <= k < out@.len() ==> cat_entity_of(
                        #[trigger] rows_for_account(self@.take(i as int), account_id@).reverse()[k],
                    ) == Some(out@[k]@),
            decreases self.rows.len() - i,
        {
            let ghost prev = rows_for_account(self@.take(i as int), account_id@);
            let ghost cur = rows_for_account(self@.take(i as int + 1), account_id@);
            proof {
                reveal(Seq::filter);
                assert(self@.take(i as int + 1).drop_last() =~= self@.take(i as int));
                assert(self@.take(i as int + 1).last() == self@[i as int]);
            }
            if self.rows[i].account_id == account_s {
                proof {
                    assert(cur =~= prev.push(self@[i as int]));
                }
                match from_storage(&self.rows[i].target_ratio) {
                    Ok(d) => {
                        let rowi = &self.rows[i];
                        let e = AssetCategory {
                            id: rowi.id.clone(),
                            account_id: rowi.account_id.clone(),
                            name: rowi.name.clone(),
                            target_ratio: d,
                            created_at: rowi.created_at,
                            updated_at: rowi.updated_at,
                        };
                        let ghost old_out = out@;
                        out.insert(0, e);
                        proof {
                            old_out.insert_ensures(0, e);
                            assert forall|k: int| 0 <= k < out@.len() implies cat_entity_of(
                                #[trigger] cur.reverse()[k],
                            ) == Some(out@[k]@) by {
                                if k == 0 {
                                    assert(cur.reverse()[0] == cur[cur.len() - 1]);
                                    assert(cur[cur.len() - 1] == self@[i as int]);
                                } else {
                                    assert(cur.reverse()[k] == cur[cur.len() - 1 - k]);
                                    assert(cur[cur.len() - 1 - k] == prev[prev.len() - 1 - (k
                                        - 1)]);
                                    assert(prev.reverse()[k - 1] == prev[prev.len() - 1 - (k
                                        - 1)]);
                                    assert(out@[k] == old_out[k - 1]);
                                }
                            }
                        }
                    },
                    Err(_) => {
                        proof {
                            self@.lemma_filter_contains(
                                |rr: Rec<CategoryCols>| rr.account_id == account_id@,
                                i as int,
                            );
                            let flt = rows_for_account(self@, account_id@);
                            assert(flt.contains(self@[i as int]));
                            let w = choose|j: int|
                                0 <= j < flt.len() && flt[j] == self@[i as int];
                            assert(decoded(flt[w].fields.ratio_bits) is None);
                        }
                        return Err(AppError::Codec(CodecError::Unrepresentable));
                    },
                }
            } else {
                proof {
                    assert(cur =~= prev);
                }
            }
            i = i + 1;
        }
        proof {
            assert(self@.take(self.rows.len() as int) =~= self@);
            lemma_account_rows_are_scoped(self@, account_id@);
            let flt = rows_for_account(self@, account_id@);
            assert forall|k: int| 0 <= k < out@.len() implies (
            #[trigger] out@[k])@.account_id == account_id@ by {
                assert(cat_entity_of(flt.reverse()[k]) == Some(out@[k]@));
                assert(flt.reverse()[k] == flt[flt.len() - 1 - k]);
                assert(flt[flt.len() - 1 - k].account_id == account_id@);
            }
            if self.wf() {
                lemma_account_rows_keep_order(self@, account_id@);
                assert forall|k1: int, k2: int| 0 <= k1 < k2 < out@.len() implies (
                #[trigger] out@[k1])@.created_at > (#[trigger] out@[k2])@.created_at by {
                    assert(cat_entity_of(flt.reverse()[k1]) == Some(out@[k1]@));
                    assert(cat_entity_of(flt.reverse()[k2]) == Some(out@[k2]@));
                    assert(flt.reverse()[k1] == flt[flt.len() - 1 - k1]);
                    assert(flt.reverse()[k2] == flt[flt.len() - 1 - k2]);
                    assert(flt[flt.len() - 1 - k2].created_at < flt[flt.len() - 1 - k1].created_at);
                }
            }
        }
        Ok(out)
    }

    /// Updates the category's name and ratio in one scoped mutation: only a
    /// row matching both the id and the account is touched, its
    /// `updated_at` refreshed to a strictly later instant, and the refreshed
    /// entity returned; otherwise nothing changes and the caller learns only
    /// that the entity was not found.
    pub fn update(
        &mut self,
        id: &str,
        account_id: &str,
        name: String,
        target_ratio: Decimal,
    ) -> (r: AppResult<AssetCategory>)
        requires
            old(self).wf(),
            target_ratio.wf(),
            old(self).spec_clock() < u64::MAX,
        ensures
            final(self).wf(),
            !scoped_match(old(self)@, id@, account_id@) ==> final(self)@ == old(self)@ && final(self).spec_clock() == old(self).spec_clock() && (r matches Err(e) && e is NotFound),
            scoped_match(old(self)@, id@, account_id@) ==> exists|i: int|
                {
                    &&& #[trigger] is_match(old(self)@, i, id@, account_id@)
                    &&& ({
                        let rec = cat_rec_updated(
                            old(self)@[i],
                            name@,
                            target_ratio,
                            old(self).spec_clock(),
                        );
                        &&& final(self)@ == old(self)@.update(i, rec)
                        &&& final(self).spec_clock() == old(self).spec_clock() + 1
                        &&& rec.created_at < rec.updated_at
                        &&& match cat_entity_of(rec) {
                            Some(v) => r matches Ok(e) && e@ == v,
                            None => r matches Err(e) && e is Codec,
                        }
                    })
                },
    {
        let id_s: String = id.to_owned();
        let account_s: String = account_id.to_owned();
        let i = match self.find_index_scoped(&id_s, &account_s) {
            Some(i) => i,
            None => {
                return Err(AppError::NotFound("Category not found or access denied".to_string()));
            },
        };
        let ghost ix = i as int;
        let ts = self.clock;
        self.clock = self.clock + 1;
        let stored = to_storage(&target_ratio);
        let mut row = self.rows.remove(i);
        row.name = name;
        row.target_ratio = stored;
        row.updated_at = ts;
        let entity = match from_storage(&stored) {
            Ok(d) => Some(
                AssetCategory {
                    id: row.id.clone(),
                    account_id: row.account_id.clone(),
                    name: row.name.clone(),
                    target_ratio: d,
                    created_at: row.created_at,
                    updated_at: ts,
                },
            ),
            Err(_) => None,
        };
        let ghost rec = row@;
        self.rows.insert(i, row);
        proof {
            assert(self@ =~= old(self)@.update(ix, rec));
            assert(is_match(old(self)@, ix, id@, account_id@));
            assert forall|a: int, b: int|
                0 <= a < self@.len() && 0 <= b < self@.len() && a != b implies (
            #[trigger] self@[a]).id != (#[trigger] self@[b]).id by {
                assert(old(self)@[a].id != old(self)@[b].id);
            }
        }
        match entity {
            Some(e) => Ok(e),
            None => Err(AppError::Codec(CodecError::Unrepresentable)),
        }
    }

    /// Deletes the category in one scoped mutation: only a row matching both
    /// the id and the account is removed, permanently; otherwise nothing
    /// changes and the caller learns only that the entity was not found.
    /// Nothing else is touched: groupings that reference the category keep
    /// their dangling reference.
    pub fn delete(&mut self, id: &str, account_id: &str) -> (r: AppResult<()>)
        requires
            old(self).wf(),
        ensures
            final(self).wf(),
            final(self).spec_clock() == old(self).spec_clock(),
            !scoped_match(old(self)@, id@, account_id@) ==> final(self)@ == old(self)@
                && (r matches Err(e) && e is NotFound),
            scoped_match(old(self)@, id@, account_id@) ==> exists|i: int|
                #[trigger] is_match(old(self)@, i, id@, account_id@) && final(self)@ == old(
                    self,
                )@.remove(i) && r is Ok,
    {
        let id_s: String = id.to_owned();
        let account_s: String = account_id.to_owned();
        let i = match self.find_index_scoped(&id_s, &account_s) {
            Some(i) => i,
            None => {
                return Err(AppError::NotFound("Category not found or access denied".to_string()));
            },
        };
        let ghost ix = i as int;
        self.rows.remove(i);
        proof {
            assert(self@ =~= old(self)@.remove(ix));
            assert(is_match(old(self)@, ix, id@, account_id@));
            old(self)@.remove_ensures(ix);
            assert forall|a: int, b: int|
                0 <= a < self@.len() && 0 <= b < self@.len() && a != b implies (
            #[trigger] self@[a]).id != (#[trigger] self@[b]).id by {
                let a0 = if a < ix { a } else { a + 1 };
                let b0 = if b < ix { b } else { b + 1 };
                assert(old(self)@[a0].id != old(self)@[b0].id);
            }
            assert forall|a: int, b: int| 0 <= a < b < self@.len() implies (
            #[trigger] self@[a]).created_at < (#[trigger] self@[b]).created_at by {
                let a0 = if a < ix { a } else { a + 1 };
                let b0 = if b < ix { b } else { b + 1 };
                assert(old(self)@[a0].created_at < old(self)@[b0].created_at);
            }
        }
        Ok(())
    }
}


/// The payload columns of a grouping row: the two opaque references it binds.
pub struct GroupingCols {
    pub asset_master_id: Seq<char>,
    pub category_id: Seq<char>,
}

/// The row a grouping create persists: both timestamps at the write instant.
pub open spec fn grp_rec(
    id: Seq<char>,
    account_id: Seq<char>,
    asset_master_id: Seq<char>,
    category_id: Seq<char>,
    at: u64,
) -> Rec<GroupingCols> {
    Rec {
        id,
        account_id,
        created_at: at,
        updated_at: at,
        fields: GroupingCols { asset_master_id, category_id },
    }
}

/// The row a grouping update leaves behind: the category reference replaced,
/// `updated_at` refreshed, everything else untouched.
pub open spec fn grp_rec_updated(
    rec: Rec<GroupingCols>,
    category_id: Seq<char>,
    at: u64,
) -> Rec<GroupingCols> {
    Rec {
        updated_at: at,
        fields: GroupingCols { asset_master_id: rec.fields.asset_master_id, category_id },
        ..rec
    }
}

/// The entity a grouping row reads back as; nothing in it can fail to read.
pub open spec fn grp_entity_of(rec: Rec<GroupingCols>) -> UserAssetGroupingView {
    UserAssetGroupingView {
        id: rec.id,
        account_id: rec.account_id,
        asset_master_id: rec.fields.asset_master_id,
        category_id: rec.fields.category_id,
        created_at: rec.created_at,
        updated_at: rec.updated_at,
    }
}

struct GroupingRow {
    id: String,
    account_id: String,
    asset_master_id: String,
    category_id: String,
    created_at: u64,
    updated_at: u64,
}

impl View for GroupingRow {
    type V = Rec<GroupingCols>;

    closed spec fn view(&self) -> Rec<GroupingCols> {
        Rec {
            id: self.id@,
            account_id: self.account_id@,
            created_at: self.created_at,
            updated_at: self.updated_at,
            fields: GroupingCols {
                asset_master_id: self.asset_master_id@,
                category_id: self.category_id@,
            },
        }
    }
}

/// The store of category groupings. It never checks that the catalog asset
/// or the category a grouping references exists: deleting a category leaves
/// any grouping that references it in place, dangling.
pub struct AssetGroupingRepository {
    rows: Vec<GroupingRow>,
    clock: u64,
}

impl View for AssetGroupingRepository {
    type V = Seq<Rec<GroupingCols>>;

    closed spec fn view(&self) -> Seq<Rec<GroupingCols>> {
        self.rows@.map_values(|r: GroupingRow| r@)
    }
}

impl AssetGroupingRepository {
    /// The logical write clock: every stamp handed out so far lies below it.
    pub closed spec fn spec_clock(&self) -> u64 {
        self.clock
    }

    /// The store invariant.
    pub open spec fn wf(&self) -> bool {
        wf_rows(self@, self.spec_clock())
    }

    /// An empty store.
    pub fn new() -> (r: Self)
        ensures
            r.wf(),
            r@ == Seq::<Rec<GroupingCols>>::empty(),
            r.spec_clock() == 0,
    {
        let r = AssetGroupingRepository { rows: Vec::new(), clock: 0 };
        proof {
            assert(r@ =~= Seq::<Rec<GroupingCols>>::empty());
        }
        r
    }

    /// The current clock value, so a caller can see a write stamp is available.
    pub fn clock(&self) -> (r: u64)
        ensures
            r == self.spec_clock(),
    {
        self.clock
    }

    fn find_index_by_id(&self, id: &String) -> (r: Option<usize>)
        ensures
            match r {
                Some(i) => i < self@.len() && self@[i as int].id == id@,
                None => !has_id(self@, id@),
            },
    {
        let mut i: usize = 0;
        while i < self.rows.len()
            invariant
                i <= self.rows.len(),
                forall|k: int| 0 <= k < i ==> (#[trigger] self@[k]).id != id@,
            decreases self.rows.len() - i,
        {
            if self.rows[i].id == *id {
                return Some(i);
            }
            i = i + 1;
        }
        None
    }

    fn find_index_scoped(&self, id: &String, account_id: &String) -> (r: Option<usize>)
        ensures
            match r {
                Some(i) => is_match(self@, i as int, id@, account_id@),
                None => !scoped_match(self@, id@, account_id@),
            },
    {
        let mut i: usize = 0;
        while i < self.rows.len()
            invariant
                i <= self.rows.len(),
                forall|k: int| 0 <= k < i ==> !is_match(self@, k, id@, account_id@),
            decreases self.rows.len() - i,
        {
            if self.rows[i].id == *id && self.rows[i].account_id == *account_id {
                return Some(i);
            }
            i = i + 1;
        }
        None
    }

    /// Persists a new grouping under the caller's account and returns it as
    /// persisted, both timestamps at the write instant. An id already present
    /// is a persistence failure, as the engine's uniqueness constraint would
    /// make it.
    pub fn create(
        &mut self,
        id: &str,
        account_id: &str,
        asset_master_id: String,
        category_id: String,
    ) -> (r: AppResult<UserAssetGrouping>)
        requires
            old(self).wf(),
            old(self).spec_clock() < u64::MAX,
        ensures
            final(self).wf(),
            has_id(old(self)@, id@) ==> final(self)@ == old(self)@ && final(self).spec_clock()
                == old(self).spec_clock() && (r matches Err(e) && e is Persistence),
            !has_id(old(self)@, id@) ==> ({
                let rec = grp_rec(
                    id@,
                    account_id@,
                    asset_master_id@,
                    category_id@,
                    old(self).spec_clock(),
                );
                &&& final(self)@ == old(self)@.push(rec)
                &&& final(self).spec_clock() == old(self).spec_clock() + 1
                &&& (r matches Ok(e) && e@ == grp_entity_of(rec))
            }),
    {
        let id_s: String = id.to_owned();
        let account_s: String = account_id.to_owned();
        if self.find_index_by_id(&id_s).is_some() {
            return Err(
                AppError::Persistence("an entity with this id already exists".to_string()),
            );
        }
        let ts = self.clock;
        self.clock = self.clock + 1;
        let row = GroupingRow {
            id: id_s,
            account_id: account_s,
            asset_master_id,
            category_id,
            created_at: ts,
            updated_at: ts,
        };
        let entity = UserAssetGrouping {
            id: row.id.clone(),
            account_id: row.account_id.clone(),
            asset_master_id: row.asset_master_id.clone(),
            category_id: row.category_id.clone(),
            created_at: ts,
            updated_at: ts,
        };
        let ghost rec = row@;
        self.rows.push(row);
        proof {
            assert(self@ =~= old(self)@.push(rec));
            assert forall|i: int, j: int|
                0 <= i < self@.len() && 0 <= j < self@.len() && i != j implies (
            #[trigger] self@[i]).id != (#[trigger] self@[j]).id by {
                if i < old(self)@.len() && j < old(self)@.len() {
                    assert(old(self)@[i].id != old(self)@[j].id);
                }
            }
        }
        Ok(entity)
    }

    /// Reads one grouping by id alone, whoever asks: `None` when no row
    /// carries the id, the persisted entity otherwise.
    pub fn find_by_id(&self, id: &str) -> (r: AppResult<Option<UserAssetGrouping>>)
        ensures
            !has_id(self@, id@) ==> (r matches Ok(o) && o is None),
            has_id(self@, id@) ==> exists|i: int|
                0 <= i < self@.len() && (#[trigger] self@[i]).id == id@ && (r matches Ok(o)
                    && o matches Some(e) && e@ == grp_entity_of(self@[i])),
    {
        let id_s: String = id.to_owned();
        match self.find_index_by_id(&id_s) {
            None => Ok(None),
            Some(i) => {
                let rowi = &self.rows[i];
                Ok(
                    Some(
                        UserAssetGrouping {
                            id: rowi.id.clone(),
                            account_id: rowi.account_id.clone(),
                            asset_master_id: rowi.asset_master_id.clone(),
                            category_id: rowi.category_id.clone(),
                            created_at: rowi.created_at,
                            updated_at: rowi.updated_at,
                        },
                    ),
                )
            },
        }
    }

    /// Lists the account's groupings, newest first; a row that is not owned
    /// by the account never appears.
    pub fn find_by_account(&self, account_id: &str) -> (r: AppResult<Vec<UserAssetGrouping>>)
        ensures
            ({
                let flt = rows_for_account(self@, account_id@);
                r matches Ok(v) && v@.len() == flt.len() && (forall|k: int|
                    0 <= k < flt.len() ==> grp_entity_of(#[trigger] flt.reverse()[k]) == v@[k]@)
                    && (forall|k: int|
                    0 <= k < v@.len() ==> (#[trigger] v@[k])@.account_id == account_id@)
                    && (self.wf() ==> (forall|k1: int, k2: int|
                    0 <= k1 < k2 < v@.len() ==> (#[trigger] v@[k1])@.created_at > (
                    #[trigger] v@[k2])@.created_at))
            }),
    {
        let account_s: String = account_id.to_owned();
        let mut out: Vec<UserAssetGrouping> = Vec::new();
        let mut i: usize = 0;
        proof {
            assert(self@.take(0) =~= Seq::<Rec<GroupingCols>>::empty());
            reveal(Seq::filter);
        }
        while i < self.rows.len()
            invariant
                i <= self.rows.len(),
                account_s@ == account_id@,
                out@.len() == rows_for_account(self@.take(i as int), account_id@).len(),
                forall|k: int|
                    0 <= k < out@.len() ==> grp_entity_of(
                        #[trigger] rows_for_account(self@.take(i as int), account_id@).reverse()[k],
                    ) == out@[k]@,
            decreases self.rows.len() - i,
        {
            let ghost prev = rows_for_account(self@.take(i as int), account_id@);
            let ghost cur = rows_for_account(self@.take(i as int + 1), account_id@);
            proof {
                reveal(Seq::filter);
                assert(self@.take(i as int + 1).drop_last() =~= self@.take(i as int));
                assert(self@.take(i as int + 1).last() == self@[i as int]);
            }
            if self.rows[i].account_id == account_s {
                proof {
                    assert(cur =~= prev.push(self@[i as int]));
                }
                let rowi = &self.rows[i];
                let e = UserAssetGrouping {
                    id: rowi.id.clone(),
                    account_id: rowi.account_id.clone(),
                    asset_master_id: rowi.asset_master_id.clone(),
                    category_id: rowi.category_id.clone(),
                    created_at: rowi.created_at,
                    updated_at: rowi.updated_at,
                };
                let ghost old_out = out@;
                out.insert(0, e);
                proof {
                    old_out.insert_ensures(0, e);
                    assert forall|k: int| 0 <= k < out@.len() implies grp_entity_of(
                        #[trigger] cur.reverse()[k],
                    ) == out@[k]@ by {
                        if k == 0 {
                            assert(cur.reverse()[0] == cur[cur.len() - 1]);
                            assert(cur[cur.len() - 1] == self@[i as int]);
                        } else {
                            assert(cur.reverse()[k] == cur[cur.len() - 1 - k]);
                            assert(cur[cur.len() - 1 - k] == prev[prev.len() - 1 - (k - 1)]);
                            assert(prev.reverse()[k - 1] == prev[prev.len() - 1 - (k - 1)]);
                            assert(out@[k] == old_out[k - 1]);
                        }
                    }
                }
            } else {
                proof {
                    assert(cur =~= prev);
                }
            }
            i = i + 1;
        }
        proof {
            assert(self@.take(self.rows.len() as int) =~= self@);
            lemma_account_rows_are_scoped(self@, account_id@);
            let flt = rows_for_account(self@, account_id@);
            assert forall|k: int| 0 <= k < out@.len() implies (
            #[trigger] out@[k])@.account_id == account_id@ by {
                assert(grp_entity_of(flt.reverse()[k]) == out@[k]@);
                assert(flt.reverse()[k] == flt[flt.len() - 1 - k]);
                assert(flt[flt.len() - 1 - k].account_id == account_id@);
            }
            if self.wf() {
                lemma_account_rows_keep_order(self@, account_id@);
                assert forall|k1: int, k2: int| 0 <= k1 < k2 < out@.len() implies (
                #[trigger] out@[k1])@.created_at > (#[trigger] out@[k2])@.created_at by {
                    assert(grp_entity_of(flt.reverse()[k1]) == out@[k1]@);
                    assert(grp_entity_of(flt.reverse()[k2]) == out@[k2]@);
                    assert(flt.reverse()[k1] == flt[flt.len() - 1 - k1]);
                    assert(flt.reverse()[k2] == flt[flt.len() - 1 - k2]);
                    assert(flt[flt.len() - 1 - k2].created_at < flt[flt.len() - 1 - k1].created_at);
                }
            }
        }
        Ok(out)
    }

    /// Re-binds the grouping to another category in one scoped mutation:
    /// only a row matching both the id and the account is touched, its
    /// `updated_at` refreshed to a strictly later instant, and the refreshed
    /// entity returned; otherwise nothing changes and the caller learns only
    /// that the entity was not found.
    pub fn update(&mut self, id: &str, account_id: &str, category_id: String) -> (r:
        AppResult<UserAssetGrouping>)
        requires
            old(self).wf(),
            old(self).spec_clock() < u64::MAX,
        ensures
            final(self).wf(),
            !scoped_match(old(self)@, id@, account_id@) ==> final(self)@ == old(self)@ && final(self).spec_clock() == old(self).spec_clock() && (r matches Err(e) && e is NotFound),
            scoped_match(old(self)@, id@, account_id@) ==> exists|i: int|
                {
                    &&& #[trigger] is_match(old(self)@, i, id@, account_id@)
                    &&& ({
                        let rec = grp_rec_updated(
                            old(self)@[i],
                            category_id@,
                            old(self).spec_clock(),
                        );
                        &&& final(self)@ == old(self)@.update(i, rec)
                        &&& final(self).spec_clock() == old(self).spec_clock() + 1
                        &&& rec.created_at < rec.updated_at
                        &&& (r matches Ok(e) && e@ == grp_entity_of(rec))
                    })
                },
    {
        let id_s: String = id.to_owned();
        let account_s: String = account_id.to_owned();
        let i = match self.find_index_scoped(&id_s, &account_s) {
            Some(i) => i,
            None => {
                return Err(AppError::NotFound("Grouping not found or access denied".to_string()));
            },
        };
        let ghost ix = i as int;
        let ts = self.clock;
        self.clock = self.clock + 1;
        let mut row = self.rows.remove(i);
        row.category_id = category_id;
        row.updated_at = ts;
        let entity = UserAssetGrouping {
            id: row.id.clone(),
            account_id: row.account_id.clone(),
            asset_master_id: row.asset_master_id.clone(),
            category_id: row.category_id.clone(),
            created_at: row.created_at,
            updated_at: ts,
        };
        let ghost rec = row@;
        self.rows.insert(i, row);
        proof {
            assert(self@ =~= old(self)@.update(ix, rec));
            assert(is_match(old(self)@, ix, id@, account_id@));
            assert forall|a: int, b: int|
                0 <= a < self@.len() && 0 <= b < self@.len() && a != b implies (
            #[trigger] self@[a]).id != (#[trigger] self@[b]).id by {
                assert(old(self)@[a].id != old(self)@[b].id);
            }
        }
        Ok(entity)
    }

    /// Deletes the grouping in one scoped mutation: only a row matching both
    /// the id and the account is removed, permanently; otherwise nothing
    /// changes and the caller learns only that the entity was not found.
    pub fn delete(&mut self, id: &str, account_id: &str) -> (r: AppResult<()>)
        requires
            old(self).wf(),
        ensures
            final(self).wf(),
            final(self).spec_clock() == old(self).spec_clock(),
            !scoped_match(old(self)@, id@, account_id@) ==> final(self)@ == old(self)@
                && (r matches Err(e) && e is NotFound),
            scoped_match(old(self)@, id@, account_id@) ==> exists|i: int|
                #[trigger] is_match(old(self)@, i, id@, account_id@) && final(self)@ == old(
                    self,
                )@.remove(i) && r is Ok,
    {
        let id_s: String = id.to_owned();
        let account_s: String = account_id.to_owned();
        let i = match self.find_index_scoped(&id_s, &account_s) {
            Some(i) => i,
            None => {
                return Err(AppError::NotFound("Grouping not found or access denied".to_string()));
            },
        };
        let ghost ix = i as int;
        self.rows.remove(i);
        proof {
            assert(self@ =~= old(self)@.remove(ix));
            assert(is_match(old(self)@, ix, id@, account_id@));
            old(self)@.remove_ensures(ix);
            assert forall|a: int, b: int|
                0 <= a < self@.len() && 0 <= b < self@.len() && a != b implies (
            #[trigger] self@[a]).id != (#[trigger] self@[b]).id by {
                let a0 = if a < ix { a } else { a + 1 };
                let b0 = if b < ix { b } else { b + 1 };
                assert(old(self)@[a0].id != old(self)@[b0].id);
            }
            assert forall|a: int, b: int| 0 <= a < b < self@.len() implies (
            #[trigger] self@[a]).created_at < (#[trigger] self@[b]).created_at by {
                let a0 = if a < ix { a } else { a + 1 };
                let b0 = if b < ix { b } else { b + 1 };
                assert(old(self)@[a0].created_at < old(self)@[b0].created_at);
            }
        }
        Ok(())
    }
}


/// The payload columns of a holding row: the catalog-asset reference and the
/// stored form of the current amount.
pub struct AssetCols {
    pub asset_master_id: Seq<char>,
    pub amount_bits: u64,
}

/// The row a holding create persists: both timestamps at the write instant,
/// the amount in its stored form.
pub open spec fn ast_rec(
    id: Seq<char>,
    account_id: Seq<char>,
    asset_master_id: Seq<char>,
    amount: Decimal,
    at: u64,
) -> Rec<AssetCols> {
    Rec {
        id,
        account_id,
        created_at: at,
        updated_at: at,
        fields: AssetCols { asset_master_id, amount_bits: storage_of(amount) },
    }
}

/// The row a holding update leaves behind: the current amount overwritten in
/// place with no history kept, `updated_at` refreshed, everything else
/// untouched.
pub open spec fn ast_rec_updated(rec: Rec<AssetCols>, amount: Decimal, at: u64) -> Rec<AssetCols> {
    Rec {
        updated_at: at,
        fields: AssetCols {
            asset_master_id: rec.fields.asset_master_id,
            amount_bits: storage_of(amount),
        },
        ..rec
    }
}

/// The entity a holding row reads back as, `None` when its stored amount
/// does not decode.
pub open spec fn ast_entity_of(rec: Rec<AssetCols>) -> Option<AssetView> {
    match decoded(rec.fields.amount_bits) {
        Some(d) => Some(
            AssetView {
                id: rec.id,
                account_id: rec.account_id,
                asset_master_id: rec.fields.asset_master_id,
                current_amount: d,
                created_at: rec.created_at,
                updated_at: rec.updated_at,
            },
        ),
        None => None,
    }
}

/// Every row in the sequence has a readable stored amount.
pub open spec fn ast_all_decodable(recs: Seq<Rec<AssetCols>>) -> bool {
    forall|i: int| 0 <= i < recs.len() ==> decoded((#[trigger] recs[i]).fields.amount_bits) is Some
}

struct AssetRow {
    id: String,
    account_id: String,
    asset_master_id: String,
    current_amount: StorageNumber,
    created_at: u64,
    updated_at: u64,
}

impl View for AssetRow {
    type V = Rec<AssetCols>;

    closed spec fn view(&self) -> Rec<AssetCols> {
        Rec {
            id: self.id@,
            account_id: self.account_id@,
            created_at: self.created_at,
            updated_at: self.updated_at,
            fields: AssetCols {
                asset_master_id: self.asset_master_id@,
                amount_bits: self.current_amount.bits,
            },
        }
    }
}

/// The holding store: each row is an account's current amount of one catalog
/// asset.
pub struct AssetRepository {
    rows: Vec<AssetRow>,
    clock: u64,
}

impl View for AssetRepository {
    type V = Seq<Rec<AssetCols>>;

    closed spec fn view(&self) -> Seq<Rec<AssetCols>> {
        self.rows@.map_values(|r: AssetRow| r@)
    }
}

impl AssetRepository {
    /// The logical write clock: every stamp handed out so far lies below it.
    pub closed spec fn spec_clock(&self) -> u64 {
        self.clock
    }

    /// The store invariant.
    pub open spec fn wf(&self) -> bool {
        wf_rows(self@, self.spec_clock())
    }

    /// An empty store.
    pub fn new() -> (r: Self)
        ensures
            r.wf(),
            r@ == Seq::<Rec<AssetCols>>::empty(),
            r.spec_clock() == 0,
    {
        let r = AssetRepository { rows: Vec::new(), clock: 0 };
        proof {
            assert(r@ =~= Seq::<Rec<AssetCols>>::empty());
        }
        r
    }

    /// The current clock value, so a caller can see a write stamp is available.
    pub fn clock(&self) -> (r: u64)
        ensures
            r == self.spec_clock(),
    {
        self.clock
    }

    fn find_index_by_id(&self, id: &String) -> (r: Option<usize>)
        ensures
            match r {
                Some(i) => i < self@.len() && self@[i as int].id == id@,
                None => !has_id(self@, id@),
            },
    {
        let mut i: usize = 0;
        while i < self.rows.len()
            invariant
                i <= self.rows.len(),
                forall|k: int| 0 <= k < i ==> (#[trigger] self@[k]).id != id@,
            decreases self.rows.len() - i,
        {
            if self.rows[i].id == *id {
                return Some(i);
            }
            i = i + 1;
        }
        None
    }

    fn find_index_scoped(&self, id: &String, account_id: &String) -> (r: Option<usize>)
        ensures
            match r {
                Some(i) => is_match(self@, i as int, id@, account_id@),
                None => !scoped_match(self@, id@, account_id@),
            },
    {
        let mut i: usize = 0;
        while i < self.rows.len()
            invariant
                i <= self.rows.len(),
                forall|k: int| 0 <= k < i ==> !is_match(self@, k, id@, account_id@),
            decreases self.rows.len() - i,
        {
            if self.rows[i].id == *id && self.rows[i].account_id == *account_id {
                return Some(i);
            }
            i = i + 1;
        }
        None
    }

    /// Persists a new holding under the caller's account and returns it as
    /// persisted: the amount read back through the codec, both timestamps at
    /// the write instant. An id already present is a persistence failure, as
    /// the engine's uniqueness constraint would make it.
    pub fn create(
        &mut self,
        id: &str,
        account_id: &str,
        asset_master_id: String,
        current_amount: Decimal,
    ) -> (r: AppResult<Asset>)
        requires
            old(self).wf(),
            current_amount.wf(),
            old(self).spec_clock() < u64::MAX,
        ensures
            final(self).wf(),
            has_id(old(self)@, id@) ==> final(self)@ == old(self)@ && final(self).spec_clock()
                == old(self).spec_clock() && (r matches Err(e) && e is Persistence),
            !has_id(old(self)@, id@) ==> ({
                let rec = ast_rec(
                    id@,
                    account_id@,
                    asset_master_id@,
                    current_amount,
                    old(self).spec_clock(),
                );
                &&& final(self)@ == old(self)@.push(rec)
                &&& final(self).spec_clock() == old(self).spec_clock() + 1
                &&& match ast_entity_of(rec) {
                    Some(v) => r matches Ok(e) && e@ == v,
                    None => r matches Err(e) && e is Codec,
                }
            }),
    {
        let id_s: String = id.to_owned();
        let account_s: String = account_id.to_owned();
        if self.find_index_by_id(&id_s).is_some() {
            return Err(
                AppError::Persistence("an entity with this id already exists".to_string()),
            );
        }
        let ts = self.clock;
        self.clock = self.clock + 1;
        let stored = to_storage(&current_amount);
        let row = AssetRow {
            id: id_s,
            account_id: account_s,
            asset_master_id,
            current_amount: stored,
            created_at: ts,
            updated_at: ts,
        };
        let entity = match from_storage(&stored) {
            Ok(d) => Some(
                Asset {
                    id: row.id.clone(),
                    account_id: row.account_id.clone(),
                    asset_master_id: row.asset_master_id.clone(),
                    current_amount: d,
                    created_at: ts,
                    updated_at: ts,
                },
            ),
            Err(_) => None,
        };
        let ghost rec = row@;
        self.rows.push(row);
        proof {
            assert(self@ =~= old(self)@.push(rec));
            assert forall|i: int, j: int|
                0 <= i < self@.len() && 0 <= j < self@.len() && i != j implies (
            #[trigger] self@[i]).id != (#[trigger] self@[j]).id by {
                if i < old(self)@.len() && j < old(self)@.len() {
                    assert(old(self)@[i].id != old(self)@[j].id);
                }
            }
        }
        match entity {
            Some(e) => Ok(e),
            None => Err(AppError::Codec(CodecError::Unrepresentable)),
        }
    }

    /// Reads one holding by id alone, whoever asks: `None` when no row
    /// carries the id, the persisted entity otherwise.
    pub fn find_by_id(&self, id: &str) -> (r: AppResult<Option<Asset>>)
        ensures
            !has_id(self@, id@) ==> (r matches Ok(o) && o is None),
            has_id(self@, id@) ==> exists|i: int|
                0 <= i < self@.len() && (#[trigger] self@[i]).id == id@ && (match ast_entity_of(
                    self@[i],
                ) {
                    Some(v) => r matches Ok(o) && o matches Some(e) && e@ == v,
                    None => r matches Err(e) && e is Codec,
                }),
    {
        let id_s: String = id.to_owned();
        match self.find_index_by_id(&id_s) {
            None => Ok(None),
            Some(i) => {
                let rowi = &self.rows[i];
                match from_storage(&rowi.current_amount) {
                    Ok(d) => Ok(
                        Some(
                            Asset {
                                id: rowi.id.clone(),
                                account_id: rowi.account_id.clone(),
                                asset_master_id: rowi.asset_master_id.clone(),
                                current_amount: d,
                                created_at: rowi.created_at,
                                updated_at: rowi.updated_at,
                            },
                        ),
                    ),
                    Err(_) => Err(AppError::Codec(CodecError::Unrepresentable)),
                }
            },
        }
    }

    /// Lists the account's holdings, newest first; a row that is not owned
    /// by the account never appears. Fails only when a stored amount cannot
    /// be read back.
    pub fn find_by_account(&self, account_id: &str) -> (r: AppResult<Vec<Asset>>)
        ensures
            ({
                let flt = rows_for_account(self@, account_id@);
                &&& ast_all_decodable(flt) ==> (r matches Ok(v) && v@.len() == flt.len() && (
                forall|k: int|
                    0 <= k < flt.len() ==> ast_entity_of(#[trigger] flt.reverse()[k]) == Some(
                        v@[k]@,
                    )) && (forall|k: int|
                    0 <= k < v@.len() ==> (#[trigger] v@[k])@.account_id == account_id@))
                &&& self.wf() && ast_all_decodable(flt) ==> (r matches Ok(v) && (forall|k1: int, k2: int|
                    0 <= k1 < k2 < v@.len() ==> (#[trigger] v@[k1])@.created_at > (
                    #[trigger] v@[k2])@.created_at))
                &&& !ast_all_decodable(flt) ==> (r matches Err(e) && e is Codec)
            }),
    {
        let account_s: String = account_id.to_owned();
        let mut out: Vec<Asset> = Vec::new();
        let mut i: usize = 0;
        proof {
            assert(self@.take(0) =~= Seq::<Rec<AssetCols>>::empty());
            reveal(Seq::filter);
        }
        while i < self.rows.len()
            invariant
                i <= self.rows.len(),
                account_s@ == account_id@,
                ast_all_decodable(rows_for_account(self@.take(i as int), account_id@)),
                out@.len() == rows_for_account(self@.take(i as int), account_id@).len(),
                forall|k: int|
                    0 <= k < out@.len() ==> ast_entity_of(
                        #[trigger] rows_for_account(self@.take(i as int), account_id@).reverse()[k],
                    ) == Some(out@[k]@),
            decreases self.rows.len() - i,
        {
            let ghost prev = rows_for_account(self@.take(i as int), account_id@);
            let ghost cur = rows_for_account(self@.take(i as int + 1), account_id@);
            proof {
                reveal(Seq::filter);
                assert(self@.take(i as int + 1).drop_last() =~= self@.take(i as int));
                assert(self@.take(i as int + 1).last() == self@[i as int]);
            }
            if self.rows[i].account_id == account_s {
                proof {
                    assert(cur =~= prev.push(self@[i as int]));
                }
                match from_storage(&self.rows[i].current_amount) {
                    Ok(d) => {
                        let rowi = &self.rows[i];
                        let e = Asset {
                            id: rowi.id.clone(),
                            account_id: rowi.account_id.clone(),
                            asset_master_id: rowi.asset_master_id.clone(),
                            current_amount: d,
                            created_at: rowi.created_at,
                            updated_at: rowi.updated_at,
                        };
                        let ghost old_out = out@;
                        out.insert(0, e);
                        proof {
                            old_out.insert_ensures(0, e);
                            assert forall|k: int| 0 <= k < out@.len() implies ast_entity_of(
                                #[trigger] cur.reverse()[k],
                            ) == Some(out@[k]@) by {
                                if k == 0 {
                                    assert(cur.reverse()[0] == cur[cur.len() - 1]);
                                    assert(cur[cur.len() - 1] == self@[i as int]);
                                } else {
                                    assert(cur.reverse()[k] == cur[cur.len() - 1 - k]);
                                    assert(cur[cur.len() - 1 - k] == prev[prev.len() - 1 - (k
                                        - 1)]);
                                    assert(prev.reverse()[k - 1] == prev[prev.len() - 1 - (k
                                        - 1)]);
                                    assert(out@[k] == old_out[k - 1]);
                                }
                            }
                        }
                    },
                    Err(_) => {
                        proof {
                            self@.lemma_filter_contains(
                                |rr: Rec<AssetCols>| rr.account_id == account_id@,
                                i as int,
                            );
                            let flt = rows_for_account(self@, account_id@);
                            assert(flt.contains(self@[i as int]));
                            let w = choose|j: int|
                                0 <= j < flt.len() && flt[j] == self@[i as int];
                            assert(decoded(flt[w].fields.amount_bits) is None);
                        }
                        return Err(AppError::Codec(CodecError::Unrepresentable));
                    },
                }
            } else {
                proof {
                    assert(cur =~= prev);
                }
            }
            i = i + 1;
        }
        proof {
            assert(self@.take(self.rows.len() as int) =~= self@);
            lemma_account_rows_are_scoped(self@, account_id@);
            let flt = rows_for_account(self@, account_id@);
            assert forall|k: int| 0 <= k < out@.len() implies (
            #[trigger] out@[k])@.account_id == account_id@ by {
                assert(ast_entity_of(flt.reverse()[k]) == Some(out@[k]@));
                assert(flt.reverse()[k] == flt[flt.len() - 1 - k]);
                assert(flt[flt.len() - 1 - k].account_id == account_id@);
            }
            if self.wf() {
                lemma_account_rows_keep_order(self@, account_id@);
                assert forall|k1: int, k2: int| 0 <= k1 < k2 < out@.len() implies (
                #[trigger] out@[k1])@.created_at > (#[trigger] out@[k2])@.created_at by {
                    assert(ast_entity_of(flt.reverse()[k1]) == Some(out@[k1]@));
                    assert(ast_entity_of(flt.reverse()[k2]) == Some(out@[k2]@));
                    assert(flt.reverse()[k1] == flt[flt.len() - 1 - k1]);
                    assert(flt.reverse()[k2] == flt[flt.len() - 1 - k2]);
                    assert(flt[flt.len() - 1 - k2].created_at < flt[flt.len() - 1 - k1].created_at);
                }
            }
        }
        Ok(out)
    }

    /// Overwrites the holding's current amount in one scoped mutation: only
    /// a row matching both the id and the account is touched, its
    /// `updated_at` refreshed to a strictly later instant, and the refreshed
    /// entity returned; otherwise nothing changes and the caller learns only
    /// that the entity was not found.
    pub fn update(&mut self, id: &str, account_id: &str, current_amount: Decimal) -> (r:
        AppResult<Asset>)
        requires
            old(self).wf(),
            current_amount.wf(),
            old(self).spec_clock() < u64::MAX,
        ensures
            final(self).wf(),
            !scoped_match(old(self)@, id@, account_id@) ==> final(self)@ == old(self)@ && final(self).spec_clock() == old(self).spec_clock() && (r matches Err(e) && e is NotFound),
            scoped_match(old(self)@, id@, account_id@) ==> exists|i: int|
                {
                    &&& #[trigger] is_match(old(self)@, i, id@, account_id@)
                    &&& ({
                        let rec = ast_rec_updated(
                            old(self)@[i],
                            current_amount,
                            old(self).spec_clock(),
                        );
                        &&& final(self)@ == old(self)@.update(i, rec)
                        &&& final(self).spec_clock() == old(self).spec_clock() + 1
                        &&& rec.created_at < rec.updated_at
                        &&& match ast_entity_of(rec) {
                            Some(v) => r matches Ok(e) && e@ == v,
                            None => r matches Err(e) && e is Codec,
                        }
                    })
                },
    {
        let id_s: String = id.to_owned();
        let account_s: String = account_id.to_owned();
        let i = match self.find_index_scoped(&id_s, &account_s) {
            Some(i) => i,
            None => {
                return Err(AppError::NotFound("Asset not found or access denied".to_string()));
            },
        };
        let ghost ix = i as int;
        let ts = self.clock;
        self.clock = self.clock + 1;
        let stored = to_storage(&current_amount);
        let mut row = self.rows.remove(i);
        row.current_amount = stored;
        row.updated_at = ts;
        let entity = match from_storage(&stored) {
            Ok(d) => Some(
                Asset {
                    id: row.id.clone(),
                    account_id: row.account_id.clone(),
                    asset_master_id: row.asset_master_id.clone(),
                    current_amount: d,
                    created_at: row.created_at,
                    updated_at: ts,
                },
            ),
            Err(_) => None,
        };
        let ghost rec = row@;
        self.rows.insert(i, row);
        proof {
            assert(self@ =~= old(self)@.update(ix, rec));
            assert(is_match(old(self)@, ix, id@, account_id@));
            assert forall|a: int, b: int|
                0 <= a < self@.len() && 0 <= b < self@.len() && a != b implies (
            #[trigger] self@[a]).id != (#[trigger] self@[b]).id by {
                assert(old(self)@[a].id != old(self)@[b].id);
            }
        }
        match entity {
            Some(e) => Ok(e),
            None => Err(AppError::Codec(CodecError::Unrepresentable)),
        }
    }

    /// Deletes the holding in one scoped mutation: only a row matching both
    /// the id and the account is removed, permanently; otherwise nothing
    /// changes and the caller learns only that the entity was not found.
    pub fn delete(&mut self, id: &str, account_id: &str) -> (r: AppResult<()>)
        requires
            old(self).wf(),
        ensures
            final(self).wf(),
            final(self).spec_clock() == old(self).spec_clock(),
            !scoped_match(old(self)@, id@, account_id@) ==> final(self)@ == old(self)@
                && (r matches Err(e) && e is NotFound),
            scoped_match(old(self)@, id@, account_id@) ==> exists|i: int|
                #[trigger] is_match(old(self)@, i, id@, account_id@) && final(self)@ == old(
                    self,
                )@.remove(i) && r is Ok,
    {
        let id_s: String = id.to_owned();
        let account_s: String = account_id.to_owned();
        let i = match self.find_index_scoped(&id_s, &account_s) {
            Some(i) => i,
            None => {
                return Err(AppError::NotFound("Asset not found or access denied".to_string()));
            },
        };
        let ghost ix = i as int;
        self.rows.remove(i);
        proof {
            assert(self@ =~= old(self)@.remove(ix));
            assert(is_match(old(self)@, ix, id@, account_id@));
            old(self)@.remove_ensures(ix);
            assert forall|a: int, b: int|
                0 <= a < self@.len() && 0 <= b < self@.len() && a != b implies (
            #[trigger] self@[a]).id != (#[trigger] self@[b]).id by {
                let a0 = if a < ix { a } else { a + 1 };
                let b0 = if b < ix { b } else { b + 1 };
                assert(old(self)@[a0].id != old(self)@[b0].id);
            }
            assert forall|a: int, b: int| 0 <= a < b < self@.len() implies (
            #[trigger] self@[a]).created_at < (#[trigger] self@[b]).created_at by {
                let a0 = if a < ix { a } else { a + 1 };
                let b0 = if b < ix { b } else { b + 1 };
                assert(old(self)@[a0].created_at < old(self)@[b0].created_at);
            }
        }
        Ok(())
    }
}

} // verus!
