use zst_compress::listing::{generate_listing, Node};
use zst_compress::naming::Classification;
use zst_compress::plan::{
    batch_result, entry_result, plan_entry, stops_after, ActionKind, EntryPlan, RET_DIR_ERROR,
    RET_ITEM_ERROR, RET_TAR_ERROR,
};
use zst_compress::run::{compression_workers, flag_message, Args, DirGuard};
use zst_compress::timestamp::Timestamp;

fn steps(p: &EntryPlan) -> Vec<(ActionKind, String)> {
    p.actions.iter().map(|a| (a.kind, a.path.clone())).collect()
}

fn st(k: ActionKind, p: &str) -> (ActionKind, String) {
    (k, p.to_string())
}

#[test]
fn plan_compress_directory_with_flag() {
    let p = plan_entry("dir", true, true, false, true, false);
    assert_eq!(p.class, Classification::CompressCandidate);
    assert_eq!(
        steps(&p),
        vec![
            st(ActionKind::BuildListing, "dir_archived-filelist.txt"),
            st(ActionKind::Pack, "dir.tar.zst"),
            st(ActionKind::WriteFlag, "dir_archived-message.txt"),
            st(ActionKind::ConfirmArchive, "dir.tar.zst"),
            st(ActionKind::RemoveSource, "dir"),
        ]
    );
}

#[test]
fn plan_compress_file_preserved() {
    let p = plan_entry("large.bin", false, true, true, false, false);
    assert_eq!(
        steps(&p),
        vec![
            st(ActionKind::Pack, "large.bin.tar.zst"),
            st(ActionKind::ConfirmArchive, "large.bin.tar.zst"),
        ]
    );
}

#[test]
fn plan_extract_cleans_artifacts() {
    let p = plan_entry("dir.tar.zst", false, false, false, false, false);
    assert_eq!(p.class, Classification::ExtractCandidate);
    assert_eq!(
        steps(&p),
        vec![
            st(ActionKind::Unpack, "dir.tar.zst"),
            st(ActionKind::RemoveArchive, "dir.tar.zst"),
            st(ActionKind::RemoveIfPresent, "dir_archived-filelist.txt"),
            st(ActionKind::RemoveIfPresent, "dir_archived-message.txt"),
        ]
    );
    let kept = plan_entry("dir.tar.zst", false, false, true, false, false);
    assert_eq!(steps(&kept), vec![st(ActionKind::Unpack, "dir.tar.zst")]);
}

#[test]
fn plan_skips() {
    for (name, compress) in
        [("dir.tar.zst", true), ("dir", false), ("zst_compress", true), ("a_archived-message.txt", false)]
    {
        let p = plan_entry(name, false, compress, false, true, false);
        assert_eq!(p.class, Classification::Skip);
        assert!(p.actions.is_empty());
    }
}

#[test]
fn dry_run_plans_no_change() {
    let p = plan_entry("dir", true, true, false, true, true);
    assert_eq!(
        steps(&p),
        vec![
            st(ActionKind::ScanListing, "dir_archived-filelist.txt"),
            st(ActionKind::ScanSource, "dir"),
        ]
    );
    let f = plan_entry("f", false, true, false, true, true);
    assert_eq!(steps(&f), vec![st(ActionKind::ScanSource, "f")]);
    let x = plan_entry("f.tar.zst", false, false, false, true, true);
    assert_eq!(steps(&x), vec![st(ActionKind::ScanArchive, "f.tar.zst")]);
    for plan in [&p, &f, &x] {
        for a in &plan.actions {
            assert!(matches!(
                a.kind,
                ActionKind::ScanListing | ActionKind::ScanSource | ActionKind::ScanArchive
            ));
        }
    }
}

#[test]
fn preserve_plans_no_removal() {
    for (name, is_dir, compress) in [("dir", true, true), ("f", false, true), ("f.tar.zst", false, false)] {
        let p = plan_entry(name, is_dir, compress, true, true, false);
        assert!(!p.actions.is_empty());
        for a in &p.actions {
            assert!(a.kind != ActionKind::RemoveSource);
            assert!(a.kind != ActionKind::RemoveArchive);
            assert!(a.kind != ActionKind::RemoveIfPresent);
        }
    }
}

#[test]
fn entry_results() {
    let p = plan_entry("dir", true, true, false, true, false);
    assert_eq!(entry_result(&p, &vec![true, true, true, true, true]), Ok(()));
    assert_eq!(entry_result(&p, &vec![false, true, true, true, true]), Err(RET_ITEM_ERROR));
    assert_eq!(entry_result(&p, &vec![true, false]), Err(RET_TAR_ERROR));
    assert_eq!(entry_result(&p, &vec![false, false]), Err(RET_TAR_ERROR));
    assert_eq!(entry_result(&p, &vec![true, true, false]), Err(RET_ITEM_ERROR));
    assert_eq!(entry_result(&p, &vec![true, true, true, false]), Err(RET_TAR_ERROR));
    assert_eq!(entry_result(&p, &vec![true, true, true, true, false]), Ok(()));
    let skip = plan_entry("a.tar.zst", false, true, false, false, false);
    assert_eq!(entry_result(&skip, &vec![]), Ok(()));
    let x = plan_entry("a.tar.zst", false, false, false, false, false);
    assert_eq!(entry_result(&x, &vec![true, false, false, false]), Ok(()));
    assert_eq!(entry_result(&x, &vec![false]), Err(RET_TAR_ERROR));
}

#[test]
fn stopping_rule() {
    assert!(stops_after(ActionKind::Pack, false));
    assert!(stops_after(ActionKind::Unpack, false));
    assert!(stops_after(ActionKind::ConfirmArchive, false));
    assert!(stops_after(ActionKind::WriteFlag, false));
    assert!(stops_after(ActionKind::ScanSource, false));
    assert!(stops_after(ActionKind::ScanArchive, false));
    assert!(!stops_after(ActionKind::ScanListing, false));
    assert!(!stops_after(ActionKind::BuildListing, false));
    assert!(!stops_after(ActionKind::RemoveSource, false));
    assert!(!stops_after(ActionKind::Pack, true));
}

#[test]
fn batch_results() {
    assert_eq!(batch_result(&vec![]), Ok(()));
    assert_eq!(batch_result(&vec![Ok(()), Ok(())]), Ok(()));
    assert_eq!(batch_result(&vec![Ok(()), Err(RET_TAR_ERROR), Ok(())]), Err(RET_ITEM_ERROR));
    assert_eq!(RET_DIR_ERROR, 3);
}

#[test]
fn workers_policy() {
    assert_eq!(compression_workers(1), 10);
    assert_eq!(compression_workers(20), 10);
    assert_eq!(compression_workers(21), 10);
    assert_eq!(compression_workers(22), 11);
    assert_eq!(compression_workers(64), 32);
}

#[test]
fn flag_notice_names_the_archive() {
    let m = flag_message("\"out/dir.tar.zst\"");
    assert!(m.contains("\"out/dir.tar.zst\""));
    assert!(m.starts_with("- This is a notice"));
    assert!(m.ends_with("\"out/dir.tar.zst\"\n"));
}

fn args() -> Args {
    Args {
        directory_start: "start".to_string(),
        dryrun: false,
        exclude: None,
        excludere: None,
        extract: false,
        flag: false,
        include_glob: None,
        includere: None,
        leveldir: None,
        preserve: false,
        quiet: false,
        target: None,
        verbose: false,
        zstdlevel: None,
    }
}

#[test]
fn args_defaults() {
    let a = args();
    assert_eq!(a.level_tree(), 4);
    assert_eq!(a.zstd_level(), 5);
    assert!(a.compress());
    assert_eq!(a.target_dir(), "start");
    let b = Args { leveldir: Some(2), zstdlevel: Some(19), extract: true, target: Some("out".to_string()), ..args() };
    assert_eq!(b.level_tree(), 2);
    assert_eq!(b.zstd_level(), 19);
    assert!(!b.compress());
    assert_eq!(b.target_dir(), "out");
}

#[test]
fn dir_guard_construction() {
    let g = DirGuard::new(Some("/home".to_string()), true).unwrap();
    assert_eq!(g.original(), "/home");
    assert_eq!(DirGuard::new(None, true).err(), Some(RET_DIR_ERROR));
    assert_eq!(DirGuard::new(Some("/home".to_string()), false).err(), Some(RET_DIR_ERROR));
}

#[test]
fn concrete_scenario_compress_then_extract() {
    let when = Timestamp { year: 2024, month: 1, day: 2, hour: 3, minute: 4, second: 5 };
    let mut d = Node::dir("dir".to_string(), when);
    d.add_child(Node::file("text.txt".to_string(), 44, when));
    d.add_child(Node::file("data.bin".to_string(), 1_000_000, when));
    let manifest = generate_listing(&d, 4);
    assert!(manifest.contains("data.bin"));
    assert!(manifest.contains("text.txt"));

    let pd = plan_entry("dir", true, true, false, true, false);
    assert_eq!(
        steps(&pd),
        vec![
            st(ActionKind::BuildListing, "dir_archived-filelist.txt"),
            st(ActionKind::Pack, "dir.tar.zst"),
            st(ActionKind::WriteFlag, "dir_archived-message.txt"),
            st(ActionKind::ConfirmArchive, "dir.tar.zst"),
            st(ActionKind::RemoveSource, "dir"),
        ]
    );
    let pf = plan_entry("large.bin", false, true, false, true, false);
    assert_eq!(
        steps(&pf),
        vec![
            st(ActionKind::Pack, "large.bin.tar.zst"),
            st(ActionKind::WriteFlag, "large.bin_archived-message.txt"),
            st(ActionKind::ConfirmArchive, "large.bin.tar.zst"),
            st(ActionKind::RemoveSource, "large.bin"),
        ]
    );
    assert!(!steps(&pf).iter().any(|s| s.0 == ActionKind::BuildListing));

    // The generated artifacts are left alone by the extracting run, the
    // archives are unpacked and removed with their manifest and flag.
    for name in ["dir_archived-filelist.txt", "dir_archived-message.txt", "large.bin_archived-message.txt"] {
        assert!(plan_entry(name, false, false, false, false, false).actions.is_empty());
    }
    let xd = plan_entry("dir.tar.zst", false, false, false, false, false);
    assert_eq!(
        steps(&xd),
        vec![
            st(ActionKind::Unpack, "dir.tar.zst"),
            st(ActionKind::RemoveArchive, "dir.tar.zst"),
            st(ActionKind::RemoveIfPresent, "dir_archived-filelist.txt"),
            st(ActionKind::RemoveIfPresent, "dir_archived-message.txt"),
        ]
    );
    let xf = plan_entry("large.bin.tar.zst", false, false, false, false, false);
    assert_eq!(steps(&xf)[0], st(ActionKind::Unpack, "large.bin.tar.zst"));
    assert_eq!(steps(&xf)[1], st(ActionKind::RemoveArchive, "large.bin.tar.zst"));
}

#[test]
fn dry_run_reports_what_would_fail() {
    // Compressing a directory: the listing walk and the packing are checked.
    let dry = plan_entry("dir", true, true, false, true, true);
    let live = plan_entry("dir", true, true, false, true, false);
    assert_eq!(entry_result(&dry, &vec![true, true]), Ok(()));
    assert_eq!(entry_result(&live, &vec![true, true, true, true, true]), Ok(()));
    assert_eq!(entry_result(&dry, &vec![false, true]), Err(RET_ITEM_ERROR));
    assert_eq!(entry_result(&live, &vec![false, true, true, true, true]), Err(RET_ITEM_ERROR));
    assert_eq!(entry_result(&dry, &vec![true, false]), Err(RET_TAR_ERROR));
    assert_eq!(entry_result(&live, &vec![true, false]), Err(RET_TAR_ERROR));
    // Compressing a file: packing is checked.
    let dry = plan_entry("f", false, true, false, false, true);
    assert_eq!(entry_result(&dry, &vec![false]), Err(RET_TAR_ERROR));
    assert_eq!(entry_result(&dry, &vec![true]), Ok(()));
    // Extracting: decoding the archive is checked.
    let dry = plan_entry("f.tar.zst", false, false, false, false, true);
    let live = plan_entry("f.tar.zst", false, false, false, false, false);
    assert_eq!(entry_result(&dry, &vec![false]), Err(RET_TAR_ERROR));
    assert_eq!(entry_result(&live, &vec![false]), Err(RET_TAR_ERROR));
    assert_eq!(entry_result(&dry, &vec![true]), Ok(()));
}
