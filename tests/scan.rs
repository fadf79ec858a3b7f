use bevy_asm::asset::AssetType;
use bevy_asm::path::parent_name;
use bevy_asm::scan::{index_entries, Action, Indexer, ScanEntry, ScanError, ScanPolicy};

fn dir(p: &str) -> ScanEntry {
    ScanEntry { path: p.to_string(), is_dir: true }
}

fn file(p: &str) -> ScanEntry {
    ScanEntry { path: p.to_string(), is_dir: false }
}

fn scenario() -> Vec<ScanEntry> {
    vec![dir("assets/sprites"), file("assets/sprites/hero.png"), file("assets/readme")]
}

#[test]
fn scenario_lenient_skips_readme() {
    let rep = index_entries(&scenario(), ScanPolicy::Lenient).unwrap();
    assert_eq!(rep.directories.len(), 1);
    assert_eq!(rep.directories[0].id, 1);
    assert_eq!(rep.directories[0].name, "sprites");
    assert_eq!(rep.directories[0].parent, None);
    assert_eq!(rep.assets.len(), 1);
    let a = &rep.assets[0];
    assert_eq!(a.name, "hero.png");
    assert_eq!(a.path.as_deref(), Some("assets/sprites/hero.png"));
    assert_eq!(a.asset_type, AssetType::Image);
    assert_eq!(a.parent_directory, rep.directories[0].id);
    assert_eq!(rep.skipped.len(), 1);
    assert!(matches!(&rep.skipped[0], ScanError::AssetWithoutExtension(p) if p == "assets/readme"));
}

#[test]
fn scenario_strict_fails_on_readme() {
    let f = index_entries(&scenario(), ScanPolicy::Strict).unwrap_err();
    assert!(matches!(&f.error, ScanError::AssetWithoutExtension(p) if p == "assets/readme"));
    assert_eq!(f.at, 2);
    assert_eq!(f.partial.directories.len(), 1);
    assert_eq!(f.partial.assets.len(), 1);
    assert_eq!(f.partial.assets[0].name, "hero.png");
}

#[test]
fn strict_keeps_no_asset_after_failure() {
    let entries = vec![
        dir("root/a"),
        file("root/a/one.png"),
        file("root/a/LICENSE"),
        file("root/a/two.png"),
        dir("root/b"),
    ];
    let f = index_entries(&entries, ScanPolicy::Strict).unwrap_err();
    assert!(matches!(&f.error, ScanError::AssetWithoutExtension(p) if p == "root/a/LICENSE"));
    assert_eq!(f.at, 2);
    assert_eq!(f.partial.assets.len(), 1);
    assert_eq!(f.partial.assets[0].path.as_deref(), Some("root/a/one.png"));
    assert_eq!(f.partial.directories.len(), 1);
}

#[test]
fn directory_ids_count_from_one() {
    let entries = vec![
        dir("root/a"),
        dir("root/a/b"),
        file("root/a/b/x.png"),
        dir("root/c"),
        dir("root/c/d"),
    ];
    let rep = index_entries(&entries, ScanPolicy::Strict).unwrap();
    let ids: Vec<u32> = rep.directories.iter().map(|d| d.id).collect();
    assert_eq!(ids, vec![1, 2, 3, 4]);
    assert_eq!(rep.directories[0].parent, None);
    assert_eq!(rep.directories[1].parent, Some(1));
    assert_eq!(rep.directories[2].parent, None);
    assert_eq!(rep.directories[3].parent, Some(3));
}

#[test]
fn assets_link_to_their_folder() {
    let entries = vec![
        dir("game/sprites"),
        file("game/sprites/hero.png"),
        dir("game/sounds"),
        file("game/sounds/jump.wav"),
        file("game/sprites/enemy.png"),
    ];
    let rep = index_entries(&entries, ScanPolicy::Strict).unwrap();
    assert_eq!(rep.assets.len(), 3);
    for a in &rep.assets {
        let folder = parent_name(a.path.as_deref().unwrap()).unwrap();
        let d = rep.directories.iter().find(|d| d.id == a.parent_directory).unwrap();
        assert_eq!(d.name, folder);
    }
    assert_eq!(rep.assets[1].asset_type, AssetType::Untyped);
    assert_eq!(rep.assets[1].parent_directory, 2);
    assert_eq!(rep.assets[2].parent_directory, 1);
    let ids: Vec<u32> = rep.assets.iter().map(|a| a.id).collect();
    assert_eq!(ids, vec![1, 2, 3]);
}

#[test]
fn asset_at_root_has_no_parent() {
    let strict = index_entries(&vec![file("assets/logo.png")], ScanPolicy::Strict).unwrap_err();
    assert!(matches!(&strict.error, ScanError::AssetWithoutParentDirectory(p) if p == "assets/logo.png"));
    let lenient = index_entries(&vec![file("assets/logo.png")], ScanPolicy::Lenient).unwrap();
    assert_eq!(lenient.assets.len(), 0);
    assert_eq!(lenient.skipped.len(), 1);
}

#[test]
fn path_without_name_is_refused() {
    let f = index_entries(&vec![dir("/")], ScanPolicy::Strict).unwrap_err();
    assert!(matches!(&f.error, ScanError::FilenameMissing(p) if p == "/"));
}

#[test]
fn duplicate_names_resolve_to_latest() {
    let entries = vec![
        dir("r/a/textures"),
        dir("r/b/textures"),
        file("r/a/textures/wall.png"),
    ];
    let rep = index_entries(&entries, ScanPolicy::Strict).unwrap();
    assert_eq!(rep.assets[0].parent_directory, 2);
}

#[test]
fn empty_scan_is_empty() {
    let rep = index_entries(&Vec::new(), ScanPolicy::Strict).unwrap();
    assert!(rep.directories.is_empty() && rep.assets.is_empty() && rep.skipped.is_empty());
}

#[test]
fn parent_name_is_folder_base_name() {
    assert_eq!(parent_name("assets/sprites/hero.png").as_deref(), Some("sprites"));
    assert_eq!(parent_name("hero.png"), None);
    assert_eq!(parent_name("/"), None);
}

#[test]
fn indexer_uses_reported_row_count() {
    let mut ix = Indexer::new(ScanPolicy::Strict);
    let a = ix.next_action(&dir("r/a")).unwrap();
    match a {
        Action::InsertDirectory(d) => {
            assert_eq!(d.id, 1);
            assert_eq!(d.name, "a");
            ix.directory_inserted(d.name, 0).unwrap();
        }
        other => panic!("unexpected {:?}", other),
    }
    assert_eq!(ix.next_directory_id(), 1);
    assert_eq!(ix.directory_id(&"a".to_string()), Some(1));
    ix.directory_inserted("b".to_string(), 1).unwrap();
    assert_eq!(ix.next_directory_id(), 2);
    assert_eq!(ix.directory_id(&"b".to_string()), Some(1));
    assert_eq!(ix.directory_id(&"c".to_string()), None);
    assert!(matches!(ix.directory_inserted("c".to_string(), u32::MAX as usize), Err(ScanError::IdSpaceExhausted)));
    assert_eq!(ix.next_directory_id(), 2);
    assert_eq!(ix.policy(), ScanPolicy::Strict);
}

#[test]
fn indexer_asset_action() {
    let mut ix = Indexer::new(ScanPolicy::Lenient);
    ix.directory_inserted("img".to_string(), 1).unwrap();
    match ix.next_action(&file("data/img/tree.png")).unwrap() {
        Action::InsertAsset(a) => {
            assert_eq!(a.id, 1);
            assert_eq!(a.name, "tree.png");
            assert_eq!(a.asset_type, AssetType::Image);
            assert_eq!(a.parent_directory, 1);
        }
        other => panic!("unexpected {:?}", other),
    }
    assert_eq!(ix.next_asset_id(), 2);
    assert!(matches!(ix.next_action(&file("data/img/notes")).unwrap(), Action::Skip(ScanError::AssetWithoutExtension(_))));
    assert_eq!(ix.next_asset_id(), 2);
}
