use std::collections::HashMap;

use ficcache::memo::after_produce;
use ficcache::memo::entry_path;
use ficcache::memo::plan;
use ficcache::memo::temp_path;
use ficcache::memo::InFlight;
use ficcache::memo::LoadPlan;

#[test]
fn second_claim_waits_until_release() {
    let mut f = InFlight::new();
    assert!(f.claim("target/web/x01"));
    assert!(!f.claim("target/web/x01"));
    assert!(f.claim("target/web/x02"));
    assert!(f.contains("target/web/x01"));
    f.release("target/web/x01");
    assert!(!f.contains("target/web/x01"));
    assert!(f.contains("target/web/x02"));
    assert!(f.claim("target/web/x01"));
}

#[test]
fn concurrent_loads_run_one_producer() {
    let mut f = InFlight::new();
    let leaders = (0..8).filter(|_| f.claim("data/spines/RYL0022518")).count();
    assert_eq!(leaders, 1);
}

#[test]
fn entry_and_temp_paths() {
    assert_eq!(entry_path("target/web/x00"), "target/web/x00.mpk");
    assert_eq!(temp_path("k", 255), "k.mpk.00000000000000FF.tmp");
    assert_ne!(temp_path("a", 0), entry_path("a"));
    assert!(temp_path("dir/a", 7).starts_with(&entry_path("dir/a")));
}

struct Disk {
    files: HashMap<String, Vec<u8>>,
    lookups: u32,
    runs: u32,
}

fn load(disk: &mut Disk, key: &str, value: &[u8]) -> Vec<u8> {
    let path = entry_path(key);
    disk.lookups += 1;
    match plan(disk.files.get(&path).cloned()) {
        LoadPlan::UseStored(b) => b,
        LoadPlan::Produce => {
            disk.runs += 1;
            disk.files.insert(path, value.to_vec());
            value.to_vec()
        }
    }
}

#[test]
fn same_url_twice_fetches_once() {
    let mut disk = Disk { files: HashMap::new(), lookups: 0, runs: 0 };
    let a = load(&mut disk, "target/web/x1", b"first");
    let b = load(&mut disk, "target/web/x1", b"second");
    assert_eq!(disk.lookups, 2);
    assert_eq!(disk.runs, 1);
    assert_eq!(a, b);
    assert_eq!(b, b"first".to_vec());
}

#[test]
fn plan_prefers_stored_entry() {
    assert!(matches!(plan(Some(vec![1, 2])), LoadPlan::UseStored(b) if b == vec![1, 2]));
    assert!(matches!(plan(None), LoadPlan::Produce));
}

#[test]
fn write_plan_follows_outcome() {
    let ok: Result<u8, String> = Ok(1);
    let w = after_produce("target/web/x01", &ok, 255).unwrap();
    assert_eq!(w.dir.as_deref(), Some("target/web"));
    assert_eq!(w.temp, "target/web/x01.mpk.00000000000000FF.tmp");
    assert_eq!(w.entry, "target/web/x01.mpk");
    let failed: Result<u8, String> = Err("down".to_string());
    assert!(after_produce("target/web/x01", &failed, 255).is_none());
    let flat = after_produce("top", &ok, 0).unwrap();
    assert_eq!(flat.dir, None);
}
