use geckolib::patch_archive::{patch_archive_plan, ArchiveSource};

fn b(s: &str) -> Vec<u8> {
    s.as_bytes().to_vec()
}

#[test]
fn archive_plan_names_each_entry() {
    let sys = vec![(b("AppLoader.ldr"), vec![1]), (b("Start.dol"), vec![2]), (b("Start.dol"), vec![3])];
    let root: Vec<(Vec<u8>, Vec<u8>)> = (0..12).map(|i| (b(&format!("f{}", i)), vec![i as u8])).collect();
    let additions = vec![b("new/a.bin"), b("b.bin")];
    let deletions = vec![b("old.bin")];
    let plan = patch_archive_plan(&sys, &root, &additions, &deletions);
    assert_eq!(plan.entries.len(), 2 + 12 + 2);
    assert_eq!(plan.entries[0].name, b("start_dol.bs.gz2"));
    assert_eq!(plan.entries[0].source, ArchiveSource::SysChange(1));
    assert_eq!(plan.entries[1].name, b("apploader.bs.gz2"));
    assert_eq!(plan.entries[1].source, ArchiveSource::SysChange(0));
    assert_eq!(plan.entries[2].name, b("change0.bs.gz2"));
    assert_eq!(plan.entries[13].name, b("change11.bs.gz2"));
    assert_eq!(plan.entries[13].source, ArchiveSource::RootChange(11));
    assert_eq!(plan.entries[15].name, b("replace1.dat"));
    assert_eq!(plan.entries[15].source, ArchiveSource::Addition(1));
    assert_eq!(plan.dol, Some(b("start_dol.bs.gz2")));
    assert_eq!(plan.loader, Some(b("apploader.bs.gz2")));
    assert_eq!(plan.changes[10], (b("f10"), b("change10.bs.gz2")));
    assert_eq!(plan.files[0], (b("new/a.bin"), b("replace0.dat")));
    assert_eq!(plan.deletions, deletions);
}

#[test]
fn archive_plan_without_system_changes() {
    let plan = patch_archive_plan(&[(b("Game.toc"), vec![1])], &[], &[], &[]);
    assert!(plan.entries.is_empty());
    assert_eq!(plan.dol, None);
    assert_eq!(plan.loader, None);
    assert!(plan.changes.is_empty() && plan.files.is_empty() && plan.deletions.is_empty());
}
