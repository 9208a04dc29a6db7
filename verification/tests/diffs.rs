use std::cell::RefCell;

use backup_catalog::catalog::Database;
use backup_catalog::classify::{classify, DiffType};
use backup_catalog::diff::Diff;
use backup_catalog::error::{Error, StorageFault};
use backup_catalog::name::SqlName;
use backup_catalog::path::{EncodedPath, Local};
use backup_catalog::snapshot::{Entry, Exclusive, Snapshot, WalkItem};
use backup_catalog::store::{DiffRow, SnapshotRow, Store};

fn name(s: &str) -> SqlName {
    SqlName::new(s.to_string()).unwrap()
}

fn root(bytes: &[u8]) -> EncodedPath<Local> {
    EncodedPath::from_vec(bytes.to_vec()).cast_to()
}

fn fresh(token: u64) -> Database {
    Database::open(root(b"/var/backup"), token, Vec::new(), Vec::new()).unwrap()
}

fn entry(path: &str, identifier: &str, info: &str) -> WalkItem {
    WalkItem::Found(Entry {
        path: root(path.as_bytes()),
        identifier: Some(identifier.as_bytes().to_vec()),
        info: info.to_string(),
    })
}

fn filled(db: &mut Database, n: &str, items: Vec<WalkItem>) -> Snapshot<Exclusive> {
    let mut handle = db.open_snapshot_at(name(n), "t0".to_string()).unwrap();
    handle.fill_at(db, items, "t1".to_string()).unwrap();
    handle
}

fn row(id: u64, identifier: &str, info: &str) -> SnapshotRow {
    SnapshotRow {
        id,
        path: b"p".to_vec(),
        identifier: identifier.as_bytes().to_vec(),
        info: info.to_string(),
    }
}

fn shown(rows: &[DiffRow]) -> Vec<(Option<u64>, Option<u64>, u8, String)> {
    rows.iter().map(|r| (r.before, r.after, r.kind, r.info.clone())).collect()
}

fn all_rows(diff: &Diff, db: &Database) -> Vec<(DiffType, String)> {
    let seen = RefCell::new(Vec::new());
    let r: Result<Result<(), ()>, Error> = diff.for_each(db, |kind, info| {
        seen.borrow_mut().push((kind, info.to_string()));
        Ok(())
    });
    assert!(matches!(r, Ok(Ok(()))));
    seen.into_inner()
}

#[test]
fn kind_parses_the_known_tags() {
    assert_eq!(DiffType::parse(0), Some(DiffType::Deleted));
    assert_eq!(DiffType::parse(1), Some(DiffType::Created));
    assert_eq!(DiffType::parse(2), Some(DiffType::Changed));
    assert_eq!(DiffType::parse(3), None);
    assert_eq!(DiffType::parse(255), None);
    for kind in [DiffType::Deleted, DiffType::Created, DiffType::Changed] {
        assert_eq!(DiffType::parse(kind.tag()), Some(kind));
    }
    assert_eq!(DiffType::Deleted.tag(), 0);
    assert_eq!(DiffType::Created.tag(), 1);
    assert_eq!(DiffType::Changed.tag(), 2);
}

#[test]
fn classify_tells_deleted_created_and_changed() {
    let before = vec![row(1, "id1", "infoX"), row(2, "id2", "infoY")];
    let after = vec![row(11, "id1", "infoZ"), row(12, "id3", "infoW")];
    let out = classify(&before, &after);
    assert_eq!(
        shown(&out),
        vec![
            (Some(2), None, 0, "infoY".to_string()),
            (None, Some(12), 1, "infoW".to_string()),
            (Some(1), Some(11), 2, "infoZ".to_string()),
        ]
    );
}

#[test]
fn classify_ignores_what_only_moved() {
    let mut before = vec![row(1, "id1", "same")];
    before[0].path = b"old/place".to_vec();
    let mut after = vec![row(9, "id1", "same")];
    after[0].path = b"new/place".to_vec();
    assert!(classify(&before, &after).is_empty());
}

#[test]
fn classify_of_nothing_is_nothing() {
    assert!(classify(&Vec::new(), &Vec::new()).is_empty());
    let some = vec![row(1, "a", "x")];
    assert_eq!(shown(&classify(&some, &Vec::new())), vec![(Some(1), None, 0, "x".to_string())]);
    assert_eq!(shown(&classify(&Vec::new(), &some)), vec![(None, Some(1), 1, "x".to_string())]);
}

#[test]
fn classify_against_itself_is_empty() {
    let rows = vec![row(1, "a", "x"), row(2, "b", "y"), row(3, "a", "x")];
    assert!(classify(&rows, &rows).is_empty());
}

#[test]
fn classify_against_itself_shows_rows_that_share_an_identifier() {
    let rows = vec![row(1, "", "dir one"), row(2, "", "dir two")];
    let out = classify(&rows, &rows);
    assert_eq!(
        shown(&out),
        vec![
            (Some(2), Some(1), 2, "dir one".to_string()),
            (Some(1), Some(2), 2, "dir two".to_string()),
        ]
    );
}

#[test]
fn classify_pairs_every_match() {
    let before = vec![row(1, "k", "a"), row(2, "k", "b")];
    let after = vec![row(7, "k", "b"), row(8, "k", "c")];
    let out = classify(&before, &after);
    assert_eq!(
        shown(&out),
        vec![
            (Some(1), Some(7), 2, "b".to_string()),
            (Some(1), Some(8), 2, "c".to_string()),
            (Some(2), Some(8), 2, "c".to_string()),
        ]
    );
}

#[test]
fn compare_yields_exactly_the_three_rows() {
    let mut db = fresh(5);
    let a = filled(&mut db, "A", vec![entry("a", "id1", "\"infoX\""), entry("b", "id2", "\"infoY\"")]);
    let b = filled(&mut db, "B", vec![entry("a", "id1", "\"infoZ\""), entry("c", "id3", "\"infoW\"")]);
    let diff = db.compare_snapshots(&a, &b).unwrap();
    assert_eq!(diff.name().as_str(), "diff_A_vs_B");
    assert!(db.is_attached(&name("diff_A_vs_B")));
    let rows = db.store(&name("diff_A_vs_B")).unwrap().diff.as_ref().unwrap();
    let b_of_a = (0u64 << 40) + 2;
    let a_of_a = (0u64 << 40) + 1;
    let a_of_b = (1u64 << 40) + 1;
    let c_of_b = (1u64 << 40) + 2;
    assert_eq!(
        shown(rows),
        vec![
            (Some(b_of_a), None, 0, "\"infoY\"".to_string()),
            (None, Some(c_of_b), 1, "\"infoW\"".to_string()),
            (Some(a_of_a), Some(a_of_b), 2, "\"infoZ\"".to_string()),
        ]
    );
    assert_eq!(
        all_rows(&diff, &db),
        vec![
            (DiffType::Deleted, "\"infoY\"".to_string()),
            (DiffType::Created, "\"infoW\"".to_string()),
            (DiffType::Changed, "\"infoZ\"".to_string()),
        ]
    );
    diff.close(&mut db);
    a.close(&mut db);
    b.close(&mut db);
}

#[test]
fn compare_of_a_snapshot_with_itself_is_empty() {
    let mut db = fresh(5);
    let a = filled(&mut db, "A", vec![entry("a", "id1", "1"), entry("b", "id2", "2")]);
    let diff = db.compare_snapshots(&a, &a).unwrap();
    assert_eq!(diff.name().as_str(), "diff_A_vs_A");
    assert!(all_rows(&diff, &db).is_empty());
    assert!(db.store(&name("diff_A_vs_A")).unwrap().diff.as_ref().unwrap().is_empty());
    diff.close(&mut db);
    a.close(&mut db);
}

#[test]
fn compare_across_catalogs_fails() {
    let mut one = fresh(1);
    let mut two = fresh(2);
    let a1 = filled(&mut one, "A", vec![entry("a", "id1", "1")]);
    let b1 = filled(&mut one, "B", vec![entry("a", "id1", "2")]);
    let a2 = filled(&mut two, "A", vec![entry("a", "id1", "1")]);
    let b2 = filled(&mut two, "B", vec![entry("a", "id1", "2")]);
    assert!(matches!(
        two.compare_snapshots(&a1, &b1),
        Err(Error::IdentityMismatch { this: 2, before: 1, after: 1 })
    ));
    assert!(matches!(
        two.compare_snapshots(&a2, &b1),
        Err(Error::IdentityMismatch { this: 2, before: 2, after: 1 })
    ));
    assert!(matches!(
        one.compare_snapshots(&a2, &b1),
        Err(Error::IdentityMismatch { this: 1, before: 2, after: 1 })
    ));
    assert!(two.store(&name("diff_A_vs_B")).is_none());
    assert!(one.store(&name("diff_A_vs_B")).is_none());
    let ok = two.compare_snapshots(&a2, &b2).unwrap();
    ok.close(&mut two);
    a1.close(&mut one);
    b1.close(&mut one);
    a2.close(&mut two);
    b2.close(&mut two);
}

#[test]
fn compare_fails_while_its_diff_is_held() {
    let mut db = fresh(5);
    let a = filled(&mut db, "A", vec![entry("a", "id1", "1")]);
    let b = filled(&mut db, "B", vec![entry("a", "id1", "2")]);
    let held = db.compare_snapshots(&a, &b).unwrap();
    assert!(matches!(
        db.compare_snapshots(&a, &b),
        Err(Error::StorageEngineFailure(StorageFault::AliasInUse))
    ));
    held.close(&mut db);
    let again = db.compare_snapshots(&a, &b).unwrap();
    assert_eq!(all_rows(&again, &db).len(), 1);
    again.close(&mut db);
    a.close(&mut db);
    b.close(&mut db);
}

#[test]
fn compare_needs_the_tables_of_both_snapshots() {
    let mut db = fresh(5);
    let a = filled(&mut db, "A", vec![entry("a", "id1", "1")]);
    let never_made = db.readonly_snapshot(name("N")).unwrap();
    assert!(matches!(
        db.compare_snapshots(&a, &never_made),
        Err(Error::StorageEngineFailure(StorageFault::NoSuchTable))
    ));
    assert!(matches!(
        db.compare_snapshots(&never_made, &a),
        Err(Error::StorageEngineFailure(StorageFault::NoSuchTable))
    ));
    assert!(db.store(&name("diff_A_vs_N")).is_none());
    assert!(!db.is_attached(&name("diff_A_vs_N")));
    never_made.close(&mut db);
    a.close(&mut db);
}

#[test]
fn diff_fill_needs_attached_snapshots() {
    let mut db = fresh(5);
    let a = filled(&mut db, "A", vec![entry("a", "id1", "1")]);
    let b = filled(&mut db, "B", vec![entry("a", "id1", "2")]);
    let diff = Diff::new(&mut db, name("d")).unwrap();
    assert!(db.store(&name("d")).unwrap().diff.as_ref().unwrap().is_empty());
    // a second catalog hands out handles that this one does not hold attached
    let mut other = fresh(5);
    let stray = other.readonly_snapshot(name("Q")).unwrap();
    assert!(matches!(
        diff.fill(&mut db, &stray, &a),
        Err(Error::StorageEngineFailure(StorageFault::NotAttached))
    ));
    diff.fill(&mut db, &a, &b).unwrap();
    assert_eq!(db.store(&name("d")).unwrap().diff.as_ref().unwrap().len(), 1);
    stray.close(&mut other);
    diff.close(&mut db);
    a.close(&mut db);
    b.close(&mut db);
}

#[test]
fn diff_fill_again_computes_anew() {
    let mut db = fresh(5);
    let mut a = filled(&mut db, "A", vec![entry("a", "id1", "1")]);
    let b = filled(&mut db, "B", vec![entry("a", "id1", "2")]);
    let diff = db.compare_snapshots(&a, &b).unwrap();
    assert_eq!(all_rows(&diff, &db), vec![(DiffType::Changed, "2".to_string())]);
    diff.fill(&mut db, &a, &b).unwrap();
    assert_eq!(all_rows(&diff, &db), vec![(DiffType::Changed, "2".to_string())]);
    a.fill_at(&mut db, vec![entry("z", "id9", "9")], "t".to_string()).unwrap();
    diff.fill(&mut db, &a, &b).unwrap();
    assert_eq!(
        all_rows(&diff, &db),
        vec![(DiffType::Deleted, "9".to_string()), (DiffType::Changed, "2".to_string())]
    );
    diff.close(&mut db);
    a.close(&mut db);
    b.close(&mut db);
}

#[test]
fn diff_new_keeps_the_rows_that_are_there() {
    let mut db = fresh(5);
    let a = filled(&mut db, "A", vec![entry("a", "id1", "1")]);
    let b = filled(&mut db, "B", vec![entry("b", "id2", "2")]);
    let diff = db.compare_snapshots(&a, &b).unwrap();
    diff.close(&mut db);
    let again = Diff::new(&mut db, name("diff_A_vs_B")).unwrap();
    assert_eq!(all_rows(&again, &db).len(), 2);
    again.close(&mut db);
    a.close(&mut db);
    b.close(&mut db);
}

fn with_diff_rows(rows: Vec<DiffRow>) -> (Database, Diff) {
    let stores = vec![Store { name: name("d"), snap: None, diff: Some(rows) }];
    let mut db = Database::open(root(b"r"), 9, Vec::new(), stores).unwrap();
    let diff = Diff::new(&mut db, name("d")).unwrap();
    (db, diff)
}

fn stored(kind: u8, info: &str) -> DiffRow {
    DiffRow { before: None, after: None, kind, info: info.to_string() }
}

#[test]
fn row_decodes_to_its_kind_and_its_document() {
    let row = stored(2, "{\"size\": 3}");
    let (kind, text) = row.decode().unwrap();
    assert_eq!(kind, DiffType::Changed);
    assert_eq!(text, "{\"size\": 3}");
    assert!(matches!(stored(0, "1").decode(), Ok((DiffType::Deleted, "1"))));
    assert!(matches!(stored(1, "[]").decode(), Ok((DiffType::Created, "[]"))));
}

#[test]
fn row_with_a_bad_tag_or_document_does_not_decode() {
    assert!(matches!(stored(3, "1").decode(), Err(Error::SchemaMismatch { found: 3 })));
    assert!(matches!(stored(200, "{").decode(), Err(Error::SchemaMismatch { found: 200 })));
    assert!(matches!(stored(1, "{").decode(), Err(Error::SerializationFailure)));
    assert!(matches!(stored(1, "").decode(), Err(Error::SerializationFailure)));
}

#[test]
fn for_each_fails_on_an_unknown_tag() {
    let (db, diff) = with_diff_rows(vec![stored(1, "1"), stored(7, "2"), stored(0, "3")]);
    let seen = RefCell::new(Vec::new());
    let r: Result<Result<(), ()>, Error> = diff.for_each(&db, |kind, info| {
        seen.borrow_mut().push((kind, info.to_string()));
        Ok(())
    });
    assert!(matches!(r, Err(Error::SchemaMismatch { found: 7 })));
    assert_eq!(seen.into_inner(), vec![(DiffType::Created, "1".to_string())]);
}

#[test]
fn for_each_looks_at_the_tag_before_the_document() {
    let (db, diff) = with_diff_rows(vec![stored(3, "{broken")]);
    let r: Result<Result<(), ()>, Error> = diff.for_each(&db, |_, _| Ok(()));
    assert!(matches!(r, Err(Error::SchemaMismatch { found: 3 })));
}

#[test]
fn for_each_fails_on_what_is_no_document() {
    for bad in ["", "{", "{\"a\":}", "[1,2", "nul", "1 2", "{} x", "'a'"] {
        let (db, diff) = with_diff_rows(vec![stored(0, "{\"ok\":true}"), stored(2, bad)]);
        let seen = RefCell::new(0);
        let r: Result<Result<(), ()>, Error> = diff.for_each(&db, |_, _| {
            *seen.borrow_mut() += 1;
            Ok(())
        });
        assert!(matches!(r, Err(Error::SerializationFailure)), "{:?}", bad);
        assert_eq!(seen.into_inner(), 1);
    }
}

#[test]
fn for_each_takes_every_document() {
    let good = ["null", "true", "0", "-1.5e3", "\"text\"", "[]", "{}", " {\"a\": [1, {\"b\": null}]} ", "\"{\""];
    let rows = good.iter().map(|g| stored(2, g)).collect();
    let (db, diff) = with_diff_rows(rows);
    let got = all_rows(&diff, &db);
    assert_eq!(got.len(), good.len());
    for (row, text) in got.iter().zip(good.iter()) {
        assert_eq!(row.1, *text);
    }
}

#[test]
fn for_each_stops_at_the_error_of_the_callback() {
    let (db, diff) = with_diff_rows(vec![stored(0, "1"), stored(1, "2"), stored(2, "3")]);
    let seen = RefCell::new(Vec::new());
    let r: Result<Result<(), String>, Error> = diff.for_each(&db, |kind, info| {
        seen.borrow_mut().push(info.to_string());
        if kind == DiffType::Created {
            Err(format!("stop at {}", info))
        } else {
            Ok(())
        }
    });
    match r {
        Ok(Err(e)) => assert_eq!(e, "stop at 2"),
        other => panic!("unexpected: {:?}", other),
    }
    assert_eq!(seen.into_inner(), vec!["1".to_string(), "2".to_string()]);
}

#[test]
fn for_each_needs_its_own_catalog_and_alias() {
    let (mut db, diff) = with_diff_rows(vec![stored(0, "1")]);
    let other = fresh(3);
    let r: Result<Result<(), ()>, Error> = diff.for_each(&other, |_, _| Ok(()));
    assert!(matches!(r, Err(Error::IdentityMismatch { this: 3, before: 9, after: 9 })));
    let same_token = fresh(9);
    let r: Result<Result<(), ()>, Error> = diff.for_each(&same_token, |_, _| Ok(()));
    assert!(matches!(r, Err(Error::StorageEngineFailure(StorageFault::NotAttached))));
    diff.close(&mut db);
}

#[test]
fn for_each_needs_a_diff_table() {
    let mut db = fresh(9);
    let diff = Diff::new(&mut db, name("d")).unwrap();
    diff.close(&mut db);
    // the store is there with its table; a snapshot store has none
    let snap = db.open_snapshot_at(name("s"), "t".to_string()).unwrap();
    snap.close(&mut db);
    let mut twin = fresh(9);
    let over_snapshot = Diff::new(&mut twin, name("s")).unwrap();
    let held = db.readonly_snapshot(name("s")).unwrap();
    let r: Result<Result<(), ()>, Error> = over_snapshot.for_each(&db, |_, _| Ok(()));
    assert!(matches!(r, Err(Error::StorageEngineFailure(StorageFault::NoSuchTable))));
    held.close(&mut db);
    over_snapshot.close(&mut twin);
}

#[test]
fn of_kind_sees_what_for_each_sees_of_that_kind() {
    let rows = vec![
        stored(2, "\"c1\""),
        stored(0, "\"d1\""),
        stored(2, "\"c2\""),
        stored(1, "\"n1\""),
        stored(2, "\"c3\""),
        stored(0, "\"d2\""),
    ];
    let (db, diff) = with_diff_rows(rows);
    let everything = all_rows(&diff, &db);
    for kind in [DiffType::Deleted, DiffType::Created, DiffType::Changed] {
        let seen = RefCell::new(Vec::new());
        let r: Result<Result<(), ()>, Error> = diff.of_kind(&db, kind, |info| {
            seen.borrow_mut().push(info.to_string());
            Ok(())
        });
        assert!(matches!(r, Ok(Ok(()))));
        let filtered: Vec<String> =
            everything.iter().filter(|(k, _)| *k == kind).map(|(_, i)| i.clone()).collect();
        assert_eq!(seen.into_inner(), filtered);
    }
    let seen = RefCell::new(Vec::new());
    let _: Result<Result<(), ()>, Error> = diff.of_kind(&db, DiffType::Changed, |info| {
        seen.borrow_mut().push(info.to_string());
        Ok(())
    });
    assert_eq!(seen.into_inner(), vec!["\"c1\"", "\"c2\"", "\"c3\""]);
}

#[test]
fn of_kind_stops_where_for_each_stops() {
    let (db, diff) = with_diff_rows(vec![stored(2, "1"), stored(9, "2"), stored(2, "3")]);
    let seen = RefCell::new(0);
    let r: Result<Result<(), ()>, Error> = diff.of_kind(&db, DiffType::Deleted, |_| {
        *seen.borrow_mut() += 1;
        Ok(())
    });
    assert!(matches!(r, Err(Error::SchemaMismatch { found: 9 })));
    assert_eq!(seen.into_inner(), 0);
    let (db, diff) = with_diff_rows(vec![stored(2, "1"), stored(0, "2"), stored(2, "3")]);
    let r: Result<Result<(), u8>, Error> = diff.of_kind(&db, DiffType::Changed, |info| {
        if info == "3" {
            Err(3)
        } else {
            Ok(())
        }
    });
    assert!(matches!(r, Ok(Err(3))));
}
