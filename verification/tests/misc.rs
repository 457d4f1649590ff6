use v2fs::digest::Digestible;
use v2fs::merkle_proof::ProofError;
use v2fs::node::NodeId;
use v2fs::script::load_query_wkld;
use v2fs::transaction::{DropBehavior, Finish, Savepoint, Transaction, TransactionBehavior};
use v2fs::utils::{cal_cap, compare_with_root, Parameter, ResInfo, Time};
use v2fs::vfs::{
    access_check, full_pathname_fits, read_status, route_of, sync_status, tmp_file_name,
    truncate_status, write_status, AccessCheck, OpenAccess, OpenKind, OpenOptions, ReadFailure,
    Route,
};

#[test]
fn open_flags() {
    assert_eq!(OpenKind::from_flags(0x100), Some(OpenKind::MainDb));
    assert_eq!(OpenKind::from_flags(0x800), Some(OpenKind::MainJournal));
    assert_eq!(OpenKind::from_flags(0x200), Some(OpenKind::TempDb));
    assert_eq!(OpenKind::from_flags(0x1000), Some(OpenKind::TempJournal));
    assert_eq!(OpenKind::from_flags(0x400), Some(OpenKind::TransientDb));
    assert_eq!(OpenKind::from_flags(0x2000), Some(OpenKind::SubJournal));
    assert_eq!(OpenKind::from_flags(0x4000), Some(OpenKind::SuperJournal));
    assert_eq!(OpenKind::from_flags(0x80000), Some(OpenKind::Wal));
    assert_eq!(OpenKind::from_flags(0x900), Some(OpenKind::MainDb));
    assert_eq!(OpenKind::from_flags(0x6), None);

    assert_eq!(OpenAccess::from_flags(0x1), Some(OpenAccess::Read));
    assert_eq!(OpenAccess::from_flags(0x2), Some(OpenAccess::Write));
    assert_eq!(OpenAccess::from_flags(0x6), Some(OpenAccess::Create));
    assert_eq!(OpenAccess::from_flags(0x16), Some(OpenAccess::CreateNew));
    assert_eq!(OpenAccess::from_flags(0x10), None);

    assert_eq!(
        OpenOptions::from_flags(0x100 | 0x2 | 0x4 | 0x8),
        Some(OpenOptions {
            kind: OpenKind::MainDb,
            access: OpenAccess::Create,
            delete_on_close: true
        })
    );
    assert_eq!(
        OpenOptions::from_flags(0x200 | 0x1),
        Some(OpenOptions {
            kind: OpenKind::TempDb,
            access: OpenAccess::Read,
            delete_on_close: false
        })
    );
    assert_eq!(OpenOptions::from_flags(0x100), None);
    assert_eq!(OpenOptions::from_flags(0x1), None);
}

#[test]
fn parameter_and_figures() {
    assert_eq!(Parameter::default().get_root_id(), None);
    assert_eq!(Parameter::new(None).get_height(), 0);
    let p = Parameter::new(Some(NodeId::new(4, 0)));
    assert_eq!(p.get_height(), 4);
    assert_eq!(p.get_root_id(), Some(NodeId::new(4, 0)));
    let t = Time { real: 1, user: 2, sys: 3 };
    let r = ResInfo::new(t, t, 10, 20);
    assert_eq!((r.query_t, r.verify_t, r.proof_s, r.cache_size), (t, t, 10, 20));
    assert_eq!(cal_cap(500), 500 * 1024 * 1024 / 4100);
    assert_eq!(cal_cap(0), 0);
    let d = "a".to_digest();
    assert_eq!(compare_with_root(d, d), Ok(()));
    assert_eq!(
        compare_with_root(d, "b".to_digest()),
        Err(ProofError::HashMismatch)
    );
}

#[test]
fn the_statements_of_a_workload() {
    let text = |s: &str| load_query_wkld(s.as_bytes());
    let strings = |s: &str| -> Vec<String> {
        text(s)
            .into_iter()
            .map(|b| String::from_utf8(b).unwrap())
            .collect()
    };
    assert_eq!(
        strings("select 1;\nselect 2;\n"),
        vec!["select 1", "select 2"]
    );
    assert_eq!(strings("select 1;select 2"), vec!["select 1", "select 2"]);
    assert_eq!(strings("a ;;b ;"), vec!["a "]);
    assert_eq!(strings("\n\nab;"), vec!["\nab"]);
    assert_eq!(strings("x;"), Vec::<String>::new());
    assert_eq!(strings(""), Vec::<String>::new());
    assert_eq!(strings("\nx;yy;"), vec!["x", "yy"]);
}

#[test]
fn a_transaction_names_its_statements() {
    let (mut tx, sql) = Transaction::new(TransactionBehavior::Immediate);
    assert_eq!(sql, "BEGIN IMMEDIATE");
    assert_eq!(Transaction::new_unchecked(TransactionBehavior::Deferred).1, "BEGIN DEFERRED");
    assert_eq!(Transaction::new(TransactionBehavior::Exclusive).1, "BEGIN EXCLUSIVE");
    assert_eq!(tx.drop_behavior(), DropBehavior::Rollback);
    let (mut sp, sql) = tx.savepoint();
    assert_eq!(sql, "SAVEPOINT _rusqlite_sp_1");
    let (inner, sql) = sp.savepoint();
    assert_eq!(sql, "SAVEPOINT _rusqlite_sp_2");
    assert_eq!(inner.commit(), "RELEASE _rusqlite_sp_2");
    assert_eq!(sp.rollback(), "ROLLBACK TO _rusqlite_sp_1");
    assert_eq!(tx.savepoint_with_name("mine".to_string()).1, "SAVEPOINT mine");
    assert!(matches!(
        Transaction::new(TransactionBehavior::Deferred).0.finish(false),
        Finish::Run(s) if s == "ROLLBACK"
    ));
    tx.set_drop_behavior(DropBehavior::Commit);
    assert_eq!(tx.drop_behavior(), DropBehavior::Commit);
    assert!(matches!(
        tx.finish(false),
        Finish::RunOrElse(a, b) if a == "COMMIT" && b == "ROLLBACK"
    ));
    let (mut tx, _) = Transaction::new(TransactionBehavior::Deferred);
    tx.set_drop_behavior(DropBehavior::Ignore);
    assert!(matches!(tx.finish(false), Finish::Nothing));
    let (tx, _) = Transaction::new(TransactionBehavior::Deferred);
    assert!(matches!(tx.finish(true), Finish::Nothing));
    assert_eq!(Transaction::new(TransactionBehavior::Deferred).0.commit(), "COMMIT");
    assert_eq!(Transaction::new(TransactionBehavior::Deferred).0.rollback(), "ROLLBACK");
}

#[test]
fn a_savepoint_names_its_statements() {
    let (mut sp, sql) = Savepoint::new();
    assert_eq!(sql, "SAVEPOINT _rusqlite_sp_0");
    assert_eq!(sp.drop_behavior(), DropBehavior::Rollback);
    assert_eq!(sp.savepoint_with_name("in".to_string()).1, "SAVEPOINT in");
    assert!(matches!(
        Savepoint::new().0.finish(),
        Finish::Run(s) if s == "ROLLBACK TO _rusqlite_sp_0"
    ));
    sp.set_drop_behavior(DropBehavior::Commit);
    assert!(matches!(
        sp.finish(),
        Finish::RunOrElse(a, b) if a == "RELEASE _rusqlite_sp_0" && b == "ROLLBACK TO _rusqlite_sp_0"
    ));
    let (mut named, sql) = Savepoint::with_name("point".to_string());
    assert_eq!(sql, "SAVEPOINT point");
    named.set_committed();
    assert!(matches!(named.finish(), Finish::Nothing));
    let (mut deep, _) = Savepoint::new();
    for depth in 1..12u32 {
        let (next, sql) = deep.savepoint();
        assert_eq!(sql, format!("SAVEPOINT _rusqlite_sp_{}", depth));
        deep = next;
    }
}

#[test]
fn files_and_result_codes() {
    assert_eq!(tmp_file_name(0), "./db/tmp_file0");
    assert_eq!(tmp_file_name(255), "./db/tmp_file255");
    assert_eq!(route_of(100), Some(Route::Scratch));
    assert_eq!(route_of(101), Some(Route::Remote));
    assert_eq!(route_of(0), None);
    assert_eq!(access_check(0), Some(AccessCheck::Exists));
    assert_eq!(access_check(1), Some(AccessCheck::ReadWrite));
    assert_eq!(access_check(2), Some(AccessCheck::Read));
    assert_eq!(access_check(3), None);
    assert!(full_pathname_fits(512, 513));
    assert!(!full_pathname_fits(513, 600));
    assert!(!full_pathname_fits(10, 9));
    assert_eq!(read_status(Some(8), 8, None), 0);
    assert_eq!(read_status(Some(8), 8, Some(ReadFailure::UnexpectedEof)), 522);
    assert_eq!(read_status(Some(8), 8, Some(ReadFailure::Other)), 266);
    assert_eq!(read_status(Some(7), 8, None), 266);
    assert_eq!(read_status(None, 8, None), 266);
    assert_eq!(write_status(Some(8), 8, false), 0);
    assert_eq!(write_status(Some(8), 8, true), 778);
    assert_eq!(write_status(None, 8, false), 266);
    assert_eq!(truncate_status(true), 1546);
    assert_eq!(truncate_status(false), 0);
    assert_eq!(sync_status(true), 1034);
    assert_eq!(sync_status(false), 0);
}
